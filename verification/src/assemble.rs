//! Assembling the lexicon from the files of a wordnet source: each entry learns its
//! part-of-speech key, each synset its identifier and file, the reverse and sense links are
//! added, and the members are resolved.

use vstd::prelude::*;
use crate::ids::{PosKey, SynsetId};
use crate::model::{Entries, Entry, Synset, Synsets, entries_in_key_order, entry_files_in_key_order, store_in_key_order, text_before};
use crate::links::{add_reverse_links, ids_present, in_store, lemma_same_shape_keeps_key_order, links_added, same_shape, sense_list, syn_at};
use crate::lexicon::{Lexicon, all_synsets, lexicon_of, store_resolvable, try_add_members};
use crate::text::{chars_of, push_char, starts_with, str_eq};

verus! {

/// `e` with its part-of-speech key recorded.
pub open spec fn with_poskey(e: Entry, k: PosKey) -> Entry {
    Entry { poskey: Some(k), ..e }
}

/// `s` with its identifier and file recorded.
pub open spec fn with_identity(s: Synset, id: SynsetId, lexname: String) -> Synset {
    Synset { id: Some(id), lexname: Some(lexname), ..s }
}

/// `after` is the lemma list `before` with every entry given its part-of-speech key.
pub open spec fn keyed_lemmas(before: Seq<(String, Vec<(PosKey, Entry)>)>, after: Seq<(String, Vec<(PosKey, Entry)>)>) -> bool {
    &&& after.len() == before.len()
    &&& forall|l: int| 0 <= l < before.len() ==> {
        &&& (#[trigger] after[l]).0 == before[l].0
        &&& after[l].1@.len() == before[l].1@.len()
        &&& forall|p: int| 0 <= p < before[l].1@.len() ==> (#[trigger] after[l].1@[p]).0 == before[l].1@[p].0
            && after[l].1@[p].1 == with_poskey(before[l].1@[p].1, before[l].1@[p].0)
    }
}

/// `after` is the entries files `before` with every entry given its part-of-speech key.
pub open spec fn keyed(before: Seq<(String, Entries)>, after: Seq<(String, Entries)>) -> bool {
    &&& after.len() == before.len()
    &&& forall|f: int| 0 <= f < before.len() ==> (#[trigger] after[f]).0 == before[f].0 && keyed_lemmas(before[f].1.0@, after[f].1.0@)
}

/// `after` is the store `before` with every synset given its identifier and file name.
pub open spec fn identified(before: Seq<(String, Synsets)>, after: Seq<(String, Synsets)>) -> bool {
    &&& same_shape(before, after)
    &&& forall|i: int, j: int|
        in_store(before, i, j) ==> #[trigger] syn_at(after, i, j) == with_identity(syn_at(before, i, j), before[i].1.0@[j].0, before[i].0)
}

/// Each synset identifier of the store with the name of its file, file after file.
pub open spec fn lexfile_pairs(store: Seq<(String, Synsets)>) -> Seq<(SynsetId, String)>
    decreases store.len(),
{
    if store.len() == 0 {
        seq![]
    } else {
        lexfile_pairs(store.drop_last()) + store.last().1.0@.map_values(|p: (SynsetId, Synset)| (p.0, store.last().0))
    }
}

/// Keying the entries moves no key: files, lemmas and part-of-speech keys in key order stay so.
pub proof fn lemma_keyed_keeps_key_order(before: Seq<(String, Entries)>, after: Seq<(String, Entries)>)
    requires
        keyed(before, after),
        entry_files_in_key_order(before),
    ensures
        entry_files_in_key_order(after),
{
    assert forall|i: int, j: int| 0 <= i < j < after.len() implies text_before(#[trigger] after[i].0@, #[trigger] after[j].0@) by {
        assert(after[i].0 == before[i].0 && after[j].0 == before[j].0);
        assert(text_before(before[i].0@, before[j].0@));
    }
    assert forall|f: int| 0 <= f < after.len() implies entries_in_key_order(#[trigger] after[f].1) by {
        let b = before[f].1.0@;
        let a = after[f].1.0@;
        assert(keyed_lemmas(b, a));
        assert(entries_in_key_order(before[f].1));
        assert forall|i: int, j: int| 0 <= i < j < a.len() implies text_before(#[trigger] a[i].0@, #[trigger] a[j].0@) by {
            assert(a[i].0 == b[i].0 && a[j].0 == b[j].0);
            assert(text_before(b[i].0@, b[j].0@));
        }
        assert forall|l: int, p: int, q: int| 0 <= l < a.len() && 0 <= p < q < a[l].1@.len()
            implies text_before(#[trigger] a[l].1@[p].0@, #[trigger] a[l].1@[q].0@) by {
            assert(a[l].1@[p].0 == b[l].1@[p].0 && a[l].1@[q].0 == b[l].1@[q].0);
            assert(text_before(b[l].1@[p].0@, b[l].1@[q].0@));
        }
    }
}

fn key_entries(list: Vec<(PosKey, Entry)>) -> (r: Vec<(PosKey, Entry)>)
    ensures
        r@.len() == list@.len(),
        forall|p: int| 0 <= p < list@.len() ==> (#[trigger] r@[p]).0 == list@[p].0 && r@[p].1 == with_poskey(list@[p].1, list@[p].0),
{
    let ghost all = list@;
    let mut out: Vec<(PosKey, Entry)> = Vec::new();
    for pair in it: list.into_iter()
        invariant
            it.seq() == all,
            out@.len() == it.index(),
            forall|p: int| 0 <= p < out@.len() ==> (#[trigger] out@[p]).0 == all[p].0 && out@[p].1 == with_poskey(all[p].1, all[p].0),
    {
        let (pos, entry) = pair;
        let k = pos.clone();
        out.push((pos, Entry { poskey: Some(k), ..entry }));
    }
    out
}

fn key_lemmas(list: Vec<(String, Vec<(PosKey, Entry)>)>) -> (r: Vec<(String, Vec<(PosKey, Entry)>)>)
    ensures
        keyed_lemmas(list@, r@),
{
    let ghost all = list@;
    let mut out: Vec<(String, Vec<(PosKey, Entry)>)> = Vec::new();
    for pair in it: list.into_iter()
        invariant
            it.seq() == all,
            out@.len() == it.index(),
            keyed_lemmas(all.take(it.index() as int), out@),
    {
        let ghost i = it.index() as int;
        let (lemma, entries) = pair;
        let keyed_entries = key_entries(entries);
        out.push((lemma, keyed_entries));
        proof {
            assert forall|l: int| 0 <= l < i + 1 implies {
                &&& (#[trigger] out@[l]).0 == all.take(i + 1)[l].0
                &&& out@[l].1@.len() == all.take(i + 1)[l].1@.len()
                &&& forall|p: int| 0 <= p < all.take(i + 1)[l].1@.len() ==> (#[trigger] out@[l].1@[p]).0 == all.take(i + 1)[l].1@[p].0
                    && out@[l].1@[p].1 == with_poskey(all.take(i + 1)[l].1@[p].1, all.take(i + 1)[l].1@[p].0)
            } by {
                assert(all.take(i + 1)[l] == all[l]);
                if l < i {
                    assert(all.take(i)[l] == all[l]);
                }
            }
        }
    }
    proof {
        assert(all.take(all.len() as int) =~= all);
    }
    out
}

/// Records in every entry its part-of-speech key.
pub fn key_entry_files(files: Vec<(String, Entries)>) -> (r: Vec<(String, Entries)>)
    ensures
        keyed(files@, r@),
        entry_files_in_key_order(files@) ==> entry_files_in_key_order(r@),
{
    let ghost all = files@;
    let mut out: Vec<(String, Entries)> = Vec::new();
    for pair in it: files.into_iter()
        invariant
            it.seq() == all,
            out@.len() == it.index(),
            forall|f: int| 0 <= f < out@.len() ==> (#[trigger] out@[f]).0 == all[f].0 && keyed_lemmas(all[f].1.0@, out@[f].1.0@),
    {
        let (key, entries) = pair;
        let lemmas = key_lemmas(entries.0);
        out.push((key, Entries(lemmas)));
    }
    proof {
        if entry_files_in_key_order(all) {
            lemma_keyed_keeps_key_order(all, out@);
        }
    }
    out
}

fn identify_file(lexname: &String, list: Vec<(SynsetId, Synset)>) -> (r: Vec<(SynsetId, Synset)>)
    ensures
        r@.len() == list@.len(),
        forall|j: int| 0 <= j < list@.len() ==> (#[trigger] r@[j]).0 == list@[j].0 && r@[j].1 == with_identity(list@[j].1, list@[j].0, *lexname),
{
    let ghost all = list@;
    let mut out: Vec<(SynsetId, Synset)> = Vec::new();
    for pair in it: list.into_iter()
        invariant
            it.seq() == all,
            out@.len() == it.index(),
            forall|j: int| 0 <= j < out@.len() ==> (#[trigger] out@[j]).0 == all[j].0 && out@[j].1 == with_identity(all[j].1, all[j].0, *lexname),
    {
        let (id, synset) = pair;
        let sid = id.clone();
        out.push((id, Synset { id: Some(sid), lexname: Some(lexname.clone()), ..synset }));
    }
    out
}

/// Records in every synset its identifier and the name of its file.
pub fn identify_synsets(files: Vec<(String, Synsets)>) -> (r: Vec<(String, Synsets)>)
    ensures
        identified(files@, r@),
        ids_present(r@),
        store_in_key_order(files@) ==> store_in_key_order(r@),
{
    let ghost all = files@;
    let mut out: Vec<(String, Synsets)> = Vec::new();
    for pair in it: files.into_iter()
        invariant
            it.seq() == all,
            out@.len() == it.index(),
            forall|f: int| 0 <= f < out@.len() ==> (#[trigger] out@[f]).0 == all[f].0 && out@[f].1.0@.len() == all[f].1.0@.len(),
            forall|f: int, j: int| 0 <= f < out@.len() && 0 <= j < all[f].1.0@.len() ==> (#[trigger] out@[f].1.0@[j]).0 == all[f].1.0@[j].0
                && out@[f].1.0@[j].1 == with_identity(all[f].1.0@[j].1, all[f].1.0@[j].0, all[f].0),
    {
        let (lexname, synsets) = pair;
        let ided = identify_file(&lexname, synsets.0);
        out.push((lexname, Synsets(ided)));
    }
    proof {
        assert forall|i: int, j: int| in_store(all, i, j) implies (#[trigger] out@[i].1.0@[j]).0 == all[i].1.0@[j].0 by {}
        assert forall|i: int, j: int| in_store(out@, i, j) implies (#[trigger] syn_at(out@, i, j)).id is Some by {
            assert(out@[i].1.0@[j].1 == with_identity(all[i].1.0@[j].1, all[i].1.0@[j].0, all[i].0));
        }
        if store_in_key_order(all) {
            lemma_same_shape_keeps_key_order(all, out@);
        }
    }
    out
}

/// Each synset identifier of the store with the name of its file.
pub fn lexfile_map(store: &Vec<(String, Synsets)>) -> (r: Vec<(SynsetId, String)>)
    ensures
        r@ == lexfile_pairs(store@),
{
    let mut out: Vec<(SynsetId, String)> = Vec::new();
    let mut i: usize = 0;
    while i < store.len()
        invariant
            i <= store@.len(),
            out@ == lexfile_pairs(store@.take(i as int)),
        decreases store@.len() - i,
    {
        let ss = &store[i].1.0;
        let ghost base = out@;
        let mut j: usize = 0;
        while j < ss.len()
            invariant
                i < store@.len(),
                *ss == store@[i as int].1.0,
                j <= ss@.len(),
                out@ == base + ss@.take(j as int).map_values(|p: (SynsetId, Synset)| (p.0, store@[i as int].0)),
            decreases ss@.len() - j,
        {
            out.push((ss[j].0.clone(), store[i].0.clone()));
            assert(out@ =~= base + ss@.take(j + 1).map_values(|p: (SynsetId, Synset)| (p.0, store@[i as int].0)));
            j += 1;
        }
        proof {
            assert(ss@.take(ss@.len() as int) =~= ss@);
            assert(store@.take(i + 1).drop_last() =~= store@.take(i as int));
        }
        i += 1;
    }
    assert(store@.take(store@.len() as int) =~= store@);
    out
}

/// Assembles the lexicon from the entries files (keyed by the letter of their name) and the
/// lexicographer files (keyed by their name) of a wordnet source: records keys, identifiers and
/// files, adds the reverse and sense links, and resolves the members. `None` when some member
/// cannot be resolved against the entries.
pub fn assemble_lexicon(entry_files: Vec<(String, Entries)>, lexfiles: Vec<(String, Synsets)>) -> (r: Option<Lexicon>)
    ensures
        exists|ents: Seq<(String, Entries)>, ided: Seq<(String, Synsets)>, linked: Seq<(String, Synsets)>|
            #![trigger keyed(entry_files@, ents), identified(lexfiles@, ided), links_added(ided, linked, lexfile_pairs(ided), sense_list(ents))]
            {
                &&& keyed(entry_files@, ents)
                &&& identified(lexfiles@, ided)
                &&& links_added(ided, linked, lexfile_pairs(ided), sense_list(ents))
                &&& (r is Some <==> store_resolvable(linked, ents))
                &&& (r matches Some(l) ==> lexicon_of(l, all_synsets(linked), ents))
                &&& (entry_files_in_key_order(entry_files@) ==> entry_files_in_key_order(ents))
                &&& (store_in_key_order(lexfiles@) ==> store_in_key_order(linked))
            },
{
    let entries = key_entry_files(entry_files);
    let mut synsets = identify_synsets(lexfiles);
    let ghost ided = synsets@;
    let map = lexfile_map(&synsets);
    add_reverse_links(&mut synsets, &entries, &map);
    let ghost linked = synsets@;
    let r = try_add_members(synsets, &entries);
    assert(keyed(entry_files@, entries@));
    assert(identified(lexfiles@, ided));
    assert(links_added(ided, linked, lexfile_pairs(ided), sense_list(entries@)));
    r
}


/// What a file of a wordnet source holds.
#[derive(Debug, PartialEq, Eq)]
pub enum SourceFile {
    /// An entries file, with the key of the lemmas it holds.
    Entries(String),
    /// A lexicographer file, with its name.
    Lexfile(String),
    /// Anything else (including the frames file).
    Other,
}

/// `s` ends with `suffix`.
pub open spec fn has_suffix(s: Seq<char>, suffix: Seq<char>) -> bool {
    suffix.len() <= s.len() && s.skip(s.len() - suffix.len()) == suffix
}

/// `s` begins with `prefix`.
pub open spec fn has_prefix_text(s: Seq<char>, prefix: Seq<char>) -> bool {
    prefix.len() <= s.len() && s.take(prefix.len() as int) == prefix
}

/// What the file named `name` holds: `entries-K.yaml` holds entries under the key `K` (its
/// first character after the dash), any other `.yaml` file but `frames.yaml` is a lexicographer
/// file named without the extension.
pub open spec fn source_file_kind(name: Seq<char>) -> SourceFileView {
    if has_prefix_text(name, "entries-"@) && has_suffix(name, ".yaml"@) {
        SourceFileView::Entries(seq![name[8]])
    } else if has_suffix(name, ".yaml"@) && name != "frames.yaml"@ {
        SourceFileView::Lexfile(name.take(name.len() - 5))
    } else {
        SourceFileView::Other
    }
}

/// A source file kind with its text spelled out.
pub enum SourceFileView {
    Entries(Seq<char>),
    Lexfile(Seq<char>),
    Other,
}

impl View for SourceFile {
    type V = SourceFileView;

    open spec fn view(&self) -> SourceFileView {
        match *self {
            SourceFile::Entries(k) => SourceFileView::Entries(k@),
            SourceFile::Lexfile(n) => SourceFileView::Lexfile(n@),
            SourceFile::Other => SourceFileView::Other,
        }
    }
}

fn ends_with(s: &Vec<char>, suffix: &str) -> (r: bool)
    ensures
        r == has_suffix(s@, suffix@),
{
    let t = chars_of(suffix);
    if t.len() > s.len() {
        return false;
    }
    let off = s.len() - t.len();
    let mut i: usize = 0;
    while i < t.len()
        invariant
            t@ == suffix@,
            off + t.len() == s.len(),
            i <= t.len(),
            forall|j: int| 0 <= j < i ==> s@[off + j] == t@[j],
        decreases t.len() - i,
    {
        if s[off + i] != t[i] {
            assert(s@.skip(off as int)[i as int] != suffix@[i as int]);
            return false;
        }
        i += 1;
    }
    assert(s@.skip(off as int) =~= suffix@);
    true
}

/// What the file named `name` holds. An entries file's key character must be ASCII, since the
/// key is cut out of the name by byte position.
pub fn classify_source_file(name: &str) -> (r: SourceFile)
    requires
        has_prefix_text(name@, "entries-"@) && has_suffix(name@, ".yaml"@) ==> (name@[8] as u32) < 128,
    ensures
        r@ == source_file_kind(name@),
{
    proof {
        reveal_strlit("entries-");
        reveal_strlit(".yaml");
    }
    let cs = chars_of(name);
    let yaml = ends_with(&cs, ".yaml");
    assert(name@.subrange(0, "entries-"@.len() as int) == name@.take("entries-"@.len() as int));
    if starts_with(name, "entries-") && yaml {
        assert(cs@.len() > 8) by {
            if cs@.len() <= 8 {
                assert(cs@.take(8)[7] == "entries-"@[7]);
                assert(cs@.skip(cs@.len() - 5)[4] == cs@[7]);
                assert(".yaml"@[4] == 'l');
            }
        }
        let mut key = String::new();
        push_char(&mut key, cs[8]);
        SourceFile::Entries(key)
    } else if yaml && !str_eq(name, "frames.yaml") {
        let mut n = String::new();
        let stop = cs.len() - 5;
        let mut i: usize = 0;
        while i < stop
            invariant
                stop == cs@.len() - 5,
                i <= stop,
                n@ == cs@.take(i as int),
            decreases stop - i,
        {
            push_char(&mut n, cs[i]);
            assert(cs@.take(i + 1) =~= cs@.take(i as int).push(cs@[i as int]));
            i += 1;
        }
        SourceFile::Lexfile(n)
    } else {
        SourceFile::Other
    }
}

} // verus!
