//! Resolving the members of a synset against the entries that name its senses.

use vstd::prelude::*;
use crate::ids::{PosKey, SynsetId};
use crate::model::{Entries, Entry, Member, MemberSense, MemberSynset, Pronunciation, Sense, Synset};
use vstd::hash_map::StringHashMap;
use crate::links::{key_pos, lemma_key_pos_extend, lemma_key_pos_found, lemma_key_pos_some};
use crate::text::{chars_of, lowercase, push_char, str_eq, to_lowercase};

verus! {

// ---------------------------------------------------------------------------------------------
// Which entries file holds a lemma.
// ---------------------------------------------------------------------------------------------

/// The key of the entries file that holds `lemma`: the first character of its lowercase form
/// when that is one of `a` to `z`, and `0` otherwise.
pub open spec fn entry_key_of(lemma: Seq<char>) -> Seq<char> {
    let c = lowercase(lemma)[0];
    if 'a' <= c && c <= 'z' {
        seq![c]
    } else {
        seq!['0']
    }
}

/// The key of the entries file that holds `lemma`.
pub fn entry_key(lemma: &str) -> (r: String)
    requires
        lowercase(lemma@).len() > 0,
    ensures
        r@ == entry_key_of(lemma@),
{
    let lower = to_lowercase(lemma);
    let cs = chars_of(lower.as_str());
    let key = cs[0];
    let mut r = String::new();
    if key < 'a' || key > 'z' {
        push_char(&mut r, '0');
    } else {
        push_char(&mut r, key);
    }
    r
}

/// The position of the first pair of `m` whose key spells `k`.
pub fn find_key<V>(m: &Vec<(String, V)>, k: &str) -> (r: Option<usize>)
    ensures
        match r {
            Some(i) => key_pos(m@, k@) == Some(i as int),
            None => key_pos(m@, k@) is None,
        },
{
    let mut i: usize = 0;
    while i < m.len()
        invariant
            i <= m.len(),
            forall|j: int| 0 <= j < i ==> (#[trigger] m@[j]).0@ != k@,
        decreases m.len() - i,
    {
        if str_eq(m[i].0.as_str(), k) {
            proof {
                lemma_key_pos_found(m@, k@, i as int);
            }
            return Some(i);
        }
        i += 1;
    }
    None
}

impl Entries {
    /// The entries of `lemma`, in part-of-speech key order; none when the lemma is absent.
    pub open spec fn entries_of(self, lemma: Seq<char>) -> Seq<Entry> {
        match key_pos(self.0@, lemma) {
            Some(i) => self.0@[i].1@.map_values(|p: (PosKey, Entry)| p.1),
            None => seq![],
        }
    }

    /// The entries of `lemma`, in part-of-speech key order.
    pub fn entry_by_lemma(&self, lemma: &str) -> (r: Vec<&Entry>)
        ensures
            r@.len() == self.entries_of(lemma@).len(),
            forall|i: int| 0 <= i < r@.len() ==> *(#[trigger] r@[i]) == self.entries_of(lemma@)[i],
    {
        let mut out: Vec<&Entry> = Vec::new();
        match find_key(&self.0, lemma) {
            None => {},
            Some(i) => {
                let list = &self.0[i].1;
                let mut j: usize = 0;
                while j < list.len()
                    invariant
                        j <= list.len(),
                        out@.len() == j,
                        forall|x: int| 0 <= x < j ==> *(#[trigger] out@[x]) == list@[x].1,
                    decreases list.len() - j,
                {
                    out.push(&list[j].1);
                    j += 1;
                }
            },
        }
        out
    }
}

/// The entries of the lemma at position `i` of `list`.
fn entries_at<'a>(list: &'a Vec<(String, Vec<(PosKey, Entry)>)>, i: usize) -> (r: Vec<&'a Entry>)
    requires
        i < list@.len(),
    ensures
        r@.len() == list@[i as int].1@.len(),
        forall|x: int| 0 <= x < r@.len() ==> *(#[trigger] r@[x]) == list@[i as int].1@[x].1,
{
    let entries = &list[i].1;
    let mut out: Vec<&Entry> = Vec::new();
    let mut j: usize = 0;
    while j < entries.len()
        invariant
            j <= entries.len(),
            out@.len() == j,
            forall|x: int| 0 <= x < j ==> *(#[trigger] out@[x]) == entries@[x].1,
        decreases entries.len() - j,
    {
        out.push(&entries[j].1);
        j += 1;
    }
    out
}

/// The position of the first pair of each lemma of an entries file.
fn lemma_positions(list: &Vec<(String, Vec<(PosKey, Entry)>)>) -> (r: StringHashMap<usize>)
    ensures
        forall|k: Seq<char>|
            #![trigger r@.contains_key(k)]
            #![trigger key_pos(list@, k)]
            (r@.contains_key(k) <==> key_pos(list@, k) is Some) && (r@.contains_key(k) ==> r@[k] as int == key_pos(list@, k)->0),
{
    let mut idx: StringHashMap<usize> = StringHashMap::new();
    let mut j: usize = 0;
    while j < list.len()
        invariant
            j <= list@.len(),
            forall|k: Seq<char>|
                #![trigger idx@.contains_key(k)]
                #![trigger key_pos(list@.take(j as int), k)]
                (idx@.contains_key(k) <==> key_pos(list@.take(j as int), k) is Some) && (idx@.contains_key(k)
                    ==> idx@[k] as int == key_pos(list@.take(j as int), k)->0),
        decreases list@.len() - j,
    {
        let lemma = &list[j].0;
        let ghost before = idx@;
        if !idx.contains_key(lemma.as_str()) {
            idx.insert(lemma.clone(), j);
        }
        proof {
            assert forall|k: Seq<char>|
                #![trigger idx@.contains_key(k)]
                #![trigger key_pos(list@.take(j + 1), k)]
                (idx@.contains_key(k) <==> key_pos(list@.take(j + 1), k) is Some) && (idx@.contains_key(k)
                    ==> idx@[k] as int == key_pos(list@.take(j + 1), k)->0) by {
                lemma_key_pos_extend(list@, j as int, k);
                assert(before.contains_key(k) <==> key_pos(list@.take(j as int), k) is Some);
            }
        }
        j += 1;
    }
    assert(list@.take(list@.len() as int) =~= list@);
    idx
}

/// An index of the entries files by lemma, built once so that looking up the entries of a
/// lemma takes constant time.
pub struct EntriesIndex {
    files: Vec<StringHashMap<usize>>,
}

impl EntriesIndex {
    /// The index answers lemma lookups in each file of `entries`.
    pub closed spec fn indexes(&self, entries: Seq<(String, Entries)>) -> bool {
        &&& self.files@.len() == entries.len()
        &&& forall|i: int, k: Seq<char>|
            #![trigger self.files@[i]@.contains_key(k)]
            #![trigger key_pos(entries[i].1.0@, k)]
            0 <= i < entries.len() ==> ((self.files@[i]@.contains_key(k) <==> key_pos(entries[i].1.0@, k) is Some)
                && (self.files@[i]@.contains_key(k) ==> self.files@[i]@[k] as int == key_pos(entries[i].1.0@, k)->0))
    }

    /// Indexes every file of `entries`.
    pub fn new(entries: &Vec<(String, Entries)>) -> (r: EntriesIndex)
        ensures
            r.indexes(entries@),
    {
        let mut files: Vec<StringHashMap<usize>> = Vec::new();
        let mut i: usize = 0;
        while i < entries.len()
            invariant
                i <= entries@.len(),
                files@.len() == i,
                forall|a: int, k: Seq<char>|
                    #![trigger files@[a]@.contains_key(k)]
                    #![trigger key_pos(entries@[a].1.0@, k)]
                    0 <= a < i ==> ((files@[a]@.contains_key(k) <==> key_pos(entries@[a].1.0@, k) is Some)
                        && (files@[a]@.contains_key(k) ==> files@[a]@[k] as int == key_pos(entries@[a].1.0@, k)->0)),
            decreases entries@.len() - i,
        {
            let ghost before = files@;
            files.push(lemma_positions(&entries[i].1.0));
            proof {
                assert forall|a: int, k: Seq<char>|
                    #![trigger files@[a]@.contains_key(k)]
                    #![trigger key_pos(entries@[a].1.0@, k)]
                    0 <= a < i + 1 implies ((files@[a]@.contains_key(k) <==> key_pos(entries@[a].1.0@, k) is Some)
                        && (files@[a]@.contains_key(k) ==> files@[a]@[k] as int == key_pos(entries@[a].1.0@, k)->0)) by {
                    if a < i {
                        assert(files@[a] == before[a]);
                    }
                }
            }
            i += 1;
        }
        EntriesIndex { files }
    }

    /// The entries of `lemma` in file `fi` of `entries`, as `Entries::entry_by_lemma` gives them.
    fn lemma_entries<'a>(&self, entries: &'a Vec<(String, Entries)>, fi: usize, lemma: &str) -> (r: Vec<&'a Entry>)
        requires
            self.indexes(entries@),
            fi < entries@.len(),
        ensures
            r@.len() == entries@[fi as int].1.entries_of(lemma@).len(),
            forall|i: int| 0 <= i < r@.len() ==> *(#[trigger] r@[i]) == entries@[fi as int].1.entries_of(lemma@)[i],
    {
        let ghost list = entries@[fi as int].1.0@;
        proof {
            assert(self.files@[fi as int]@.contains_key(lemma@) <==> key_pos(list, lemma@) is Some);
        }
        match self.files[fi].get(lemma) {
            Some(p) => {
                let i = *p;
                proof {
                    lemma_key_pos_some(list, lemma@);
                }
                entries_at(&entries[fi].1.0, i)
            },
            None => Vec::new(),
        }
    }
}

/// The entries of `lemma` in file `fi`, through the index when there is one.
fn lookup_entries<'a>(entries: &'a Vec<(String, Entries)>, index: Option<&EntriesIndex>, fi: usize, lemma: &str) -> (r: Vec<&'a Entry>)
    requires
        fi < entries@.len(),
        index matches Some(ix) ==> ix.indexes(entries@),
    ensures
        r@.len() == entries@[fi as int].1.entries_of(lemma@).len(),
        forall|i: int| 0 <= i < r@.len() ==> *(#[trigger] r@[i]) == entries@[fi as int].1.entries_of(lemma@)[i],
{
    match index {
        Some(ix) => ix.lemma_entries(entries, fi, lemma),
        None => entries[fi].1.entry_by_lemma(lemma),
    }
}

// ---------------------------------------------------------------------------------------------
// The members of a synset.
// ---------------------------------------------------------------------------------------------

/// The entries file of `lemma` among `entries`.
pub open spec fn file_of(entries: Seq<(String, Entries)>, lemma: Seq<char>) -> Entries {
    entries[key_pos(entries, entry_key_of(lemma))->0].1
}

/// The senses among `ss` that belong to synset `id`, each with its lemma and entry.
pub open spec fn senses_in(lemma: String, e: Entry, ss: Seq<Sense>, id: SynsetId) -> Seq<(String, Entry, Sense)>
    decreases ss.len(),
{
    if ss.len() == 0 {
        seq![]
    } else {
        senses_in(lemma, e, ss.drop_last(), id) + if ss.last().synset@ == id@ {
            seq![(lemma, e, ss.last())]
        } else {
            seq![]
        }
    }
}

/// The senses of the entries `es` of `lemma` that belong to synset `id`, in order.
pub open spec fn entry_senses(lemma: String, es: Seq<Entry>, id: SynsetId) -> Seq<(String, Entry, Sense)>
    decreases es.len(),
{
    if es.len() == 0 {
        seq![]
    } else {
        entry_senses(lemma, es.drop_last(), id) + senses_in(lemma, es.last(), es.last().sense@, id)
    }
}

/// For each member lemma in turn, the senses of its entries that belong to synset `id`.
pub open spec fn member_entries(ms: Seq<String>, entries: Seq<(String, Entries)>, id: SynsetId) -> Seq<(String, Entry, Sense)>
    decreases ms.len(),
{
    if ms.len() == 0 {
        seq![]
    } else {
        member_entries(ms.drop_last(), entries, id) + entry_senses(
            ms.last(),
            file_of(entries, ms.last()@).entries_of(ms.last()@),
            id,
        )
    }
}

/// The homograph number of an optional part-of-speech key.
pub open spec fn entry_no_of(k: Option<PosKey>) -> Option<u32> {
    match k {
        Some(k) => k.entry_no_spec(),
        None => None,
    }
}

/// `m` is the member made of sense `t.2` of entry `t.1` of lemma `t.0`.
pub open spec fn is_member_for(m: Member, t: (String, Entry, Sense)) -> bool {
    &&& m.lemma == t.0
    &&& m.sense.id == t.2.id
    &&& m.sense.subcat@ == t.2.subcat@
    &&& m.form@ == t.1.form@
    &&& m.pronunciation@ == t.1.pronunciation@
    &&& m.poskey == t.1.poskey
    &&& m.entry_no == entry_no_of(t.1.poskey)
}

/// `ms` are the members made of the senses `ts`, one for one.
pub open spec fn members_for(ms: Seq<Member>, ts: Seq<(String, Entry, Sense)>) -> bool {
    &&& ms.len() == ts.len()
    &&& forall|k: int| 0 <= k < ms.len() ==> is_member_for(#[trigger] ms[k], ts[k])
}

/// `m` carries every field of `s` but its members.
pub open spec fn carries_synset(m: MemberSynset, s: Synset) -> bool {
    &&& m.id == s.id->0
    &&& m.lexname == s.lexname->0
    &&& m.definition == s.definition
    &&& m.example == s.example
    &&& m.ili == s.ili
    &&& m.wikidata == s.wikidata
    &&& m.source == s.source
    &&& m.part_of_speech == s.part_of_speech
    &&& m.also == s.also
    &&& m.attribute == s.attribute
    &&& m.causes == s.causes
    &&& m.domain_region == s.domain_region
    &&& m.domain_topic == s.domain_topic
    &&& m.exemplifies == s.exemplifies
    &&& m.entails == s.entails
    &&& m.hypernym == s.hypernym
    &&& m.instance_hypernym == s.instance_hypernym
    &&& m.mero_member == s.mero_member
    &&& m.mero_part == s.mero_part
    &&& m.mero_substance == s.mero_substance
    &&& m.similar == s.similar
    &&& m.hyponym == s.hyponym
    &&& m.is_caused_by == s.is_caused_by
    &&& m.has_domain_region == s.has_domain_region
    &&& m.has_domain_topic == s.has_domain_topic
    &&& m.is_exemplified_by == s.is_exemplified_by
    &&& m.is_entailed_by == s.is_entailed_by
    &&& m.instance_hyponym == s.instance_hyponym
    &&& m.holo_member == s.holo_member
    &&& m.holo_part == s.holo_part
    &&& m.holo_substance == s.holo_substance
    &&& m.antonym == s.antonym
    &&& m.participle == s.participle
    &&& m.is_participle_of == s.is_participle_of
    &&& m.pertainym == s.pertainym
    &&& m.is_pertainym_of == s.is_pertainym_of
    &&& m.derivation == s.derivation
    &&& m.exemplifies_sense == s.exemplifies_sense
    &&& m.is_exemplified_by_sense == s.is_exemplified_by_sense
    &&& m.agent == s.agent
    &&& m.is_agent_of == s.is_agent_of
    &&& m.material == s.material
    &&& m.is_material_of == s.is_material_of
    &&& m.event == s.event
    &&& m.is_event_of == s.is_event_of
    &&& m.instrument == s.instrument
    &&& m.is_instrument_of == s.is_instrument_of
    &&& m.location == s.location
    &&& m.is_location_of == s.is_location_of
    &&& m.by_means_of == s.by_means_of
    &&& m.is_by_means_of == s.is_by_means_of
    &&& m.undergoer == s.undergoer
    &&& m.is_undergoer_of == s.is_undergoer_of
    &&& m.property == s.property
    &&& m.is_property_of == s.is_property_of
    &&& m.result == s.result
    &&& m.is_result_of == s.is_result_of
    &&& m.state == s.state
    &&& m.is_state_of == s.is_state_of
    &&& m.uses == s.uses
    &&& m.is_used_by == s.is_used_by
    &&& m.destination == s.destination
    &&& m.is_destination_of == s.is_destination_of
    &&& m.body_part == s.body_part
    &&& m.is_body_part_of == s.is_body_part_of
    &&& m.vehicle == s.vehicle
    &&& m.is_vehicle_of == s.is_vehicle_of
}

/// What resolving the members of `s` needs: `s` knows its identifier and file, each member
/// lemma has an entries file, and each entry that has a sense of `s` has a key that can be cut
/// after two bytes.
pub open spec fn members_resolvable(s: Synset, entries: Seq<(String, Entries)>) -> bool {
    &&& s.id is Some
    &&& s.lexname is Some
    &&& forall|k: int| 0 <= k < s.members@.len() ==> lowercase((#[trigger] s.members@[k])@).len() > 0
    &&& forall|k: int| 0 <= k < s.members@.len() ==> key_pos(entries, entry_key_of((#[trigger] s.members@[k])@)) is Some
    &&& forall|k: int, x: int, y: int|
        0 <= k < s.members@.len() && 0 <= x < file_of(entries, s.members@[k]@).entries_of(s.members@[k]@).len()
        && 0 <= y < file_of(entries, s.members@[k]@).entries_of(s.members@[k]@)[x].sense@.len()
        && (#[trigger] file_of(entries, s.members@[k]@).entries_of(s.members@[k]@)[x].sense@[y]).synset@ == (s.id->0)@
        ==> match file_of(entries, s.members@[k]@).entries_of(s.members@[k]@)[x].poskey {
            Some(p) => p.splits_after_two(),
            None => true,
        }
}

fn clone_strings(v: &Vec<String>) -> (r: Vec<String>)
    ensures
        r@ == v@,
{
    let r = v.clone();
    assert(r@ =~= v@);
    r
}

fn clone_pronunciations(v: &Vec<Pronunciation>) -> (r: Vec<Pronunciation>)
    ensures
        r@ == v@,
{
    let r = v.clone();
    assert(r@ =~= v@);
    r
}

fn clone_poskey(k: &Option<PosKey>) -> (r: Option<PosKey>)
    ensures
        r == *k,
{
    match k {
        Some(p) => Some(p.clone()),
        None => None,
    }
}

/// The synset with each member lemma resolved to the senses of its entries that belong to the
/// synset.
pub fn synset_with_members(synset: Synset, entries: &Vec<(String, Entries)>) -> (r: MemberSynset)
    requires
        members_resolvable(synset, entries@),
    ensures
        carries_synset(r, synset),
        members_for(r.members@, member_entries(synset.members@, entries@, synset.id->0)),
{
    resolve_members(synset, entries, None)
}

/// `synset_with_members`, looking lemmas up through `index` when one is given.
pub(crate) fn resolve_members(synset: Synset, entries: &Vec<(String, Entries)>, index: Option<&EntriesIndex>) -> (r: MemberSynset)
    requires
        members_resolvable(synset, entries@),
        index matches Some(ix) ==> ix.indexes(entries@),
    ensures
        carries_synset(r, synset),
        members_for(r.members@, member_entries(synset.members@, entries@, synset.id->0)),
{
    let ghost s = synset;
    let ghost ents = entries@;
    let sid = synset.id.as_ref().unwrap().clone();
    let mut members: Vec<Member> = Vec::new();
    let mut k: usize = 0;
    while k < synset.members.len()
        invariant
            s == synset,
            ents == entries@,
            members_resolvable(s, ents),
            index matches Some(ix) ==> ix.indexes(entries@),
            sid == s.id->0,
            k <= synset.members.len(),
            members_for(members@, member_entries(synset.members@.take(k as int), ents, sid)),
        decreases synset.members.len() - k,
    {
        let m = &synset.members[k];
        let ghost mk = synset.members@[k as int];
        proof {
            assert(lowercase(mk@).len() > 0);
            assert(key_pos(ents, entry_key_of(mk@)) is Some);
            assert(synset.members@.take(k + 1).drop_last() =~= synset.members@.take(k as int));
        }
        let key = entry_key(m.as_str());
        let fi = match find_key(entries, key.as_str()) {
            Some(i) => i,
            None => {
                assert(false);
                0
            },
        };
        let es = lookup_entries(entries, index, fi, m.as_str());
        let ghost ges = file_of(ents, mk@).entries_of(mk@);
        let ghost base = member_entries(synset.members@.take(k as int), ents, sid);
        let mut x: usize = 0;
        while x < es.len()
            invariant
                s == synset,
                ents == entries@,
                members_resolvable(s, ents),
                sid == s.id->0,
                k < synset.members.len(),
                mk == synset.members@[k as int],
                *m == mk,
                ges == file_of(ents, mk@).entries_of(mk@),
                es@.len() == ges.len(),
                forall|i: int| 0 <= i < es@.len() ==> *(#[trigger] es@[i]) == ges[i],
                x <= es.len(),
                members_for(members@, base + entry_senses(mk, ges.take(x as int), sid)),
            decreases es.len() - x,
        {
            let e: &Entry = es[x];
            let ghost ex = ges[x as int];
            proof {
                assert(ges.take(x + 1).drop_last() =~= ges.take(x as int));
            }
            let ghost mid = base + entry_senses(mk, ges.take(x as int), sid);
            let mut y: usize = 0;
            while y < e.sense.len()
                invariant
                    s == synset,
                    ents == entries@,
                    members_resolvable(s, ents),
                    sid == s.id->0,
                    k < synset.members.len(),
                    mk == synset.members@[k as int],
                    *m == mk,
                    ges == file_of(ents, mk@).entries_of(mk@),
                    x < ges.len(),
                    *e == ges[x as int],
                    ex == *e,
                    y <= e.sense.len(),
                    members_for(members@, mid + senses_in(mk, ex, ex.sense@.take(y as int), sid)),
                decreases e.sense.len() - y,
            {
                let sense = &e.sense[y];
                proof {
                    assert(ex.sense@.take(y + 1).drop_last() =~= ex.sense@.take(y as int));
                }
                if sense.synset.same_as(&sid) {
                    proof {
                        assert(file_of(ents, s.members@[k as int]@).entries_of(s.members@[k as int]@)[x as int].sense@[y as int].synset@ == (s.id->0)@);
                    }
                    let entry_no = match &e.poskey {
                        Some(p) => p.entry_no(),
                        None => None,
                    };
                    let member = Member {
                        lemma: m.clone(),
                        sense: MemberSense { id: sense.id.clone(), subcat: clone_strings(&sense.subcat) },
                        form: clone_strings(&e.form),
                        pronunciation: clone_pronunciations(&e.pronunciation),
                        poskey: clone_poskey(&e.poskey),
                        entry_no,
                    };
                    let ghost prev = members@;
                    members.push(member);
                    proof {
                        let t = mid + senses_in(mk, ex, ex.sense@.take(y + 1), sid);
                        assert(t =~= (mid + senses_in(mk, ex, ex.sense@.take(y as int), sid)).push((mk, ex, ex.sense@[y as int])));
                        assert forall|i: int| 0 <= i < members@.len() implies is_member_for(#[trigger] members@[i], t[i]) by {
                            if i < prev.len() {
                                assert(members@[i] == prev[i]);
                            }
                        }
                    }
                } else {
                    proof {
                        let t = mid + senses_in(mk, ex, ex.sense@.take(y + 1), sid);
                        assert(t =~= mid + senses_in(mk, ex, ex.sense@.take(y as int), sid));
                    }
                }
                y += 1;
            }
            proof {
                assert(ex.sense@.take(ex.sense@.len() as int) =~= ex.sense@);
                assert(base + entry_senses(mk, ges.take(x + 1), sid) =~= mid + senses_in(mk, ex, ex.sense@, sid));
            }
            x += 1;
        }
        proof {
            assert(ges.take(ges.len() as int) =~= ges);
            assert(member_entries(synset.members@.take(k + 1), ents, sid) =~= base + entry_senses(mk, ges, sid));
        }
        k += 1;
    }
    proof {
        assert(synset.members@.take(synset.members@.len() as int) =~= synset.members@);
    }
    MemberSynset {
        members,
        id: synset.id.unwrap(),
        lexname: synset.lexname.unwrap(),
        definition: synset.definition,
        example: synset.example,
        ili: synset.ili,
        wikidata: synset.wikidata,
        source: synset.source,
        part_of_speech: synset.part_of_speech,
        also: synset.also,
        attribute: synset.attribute,
        causes: synset.causes,
        domain_region: synset.domain_region,
        domain_topic: synset.domain_topic,
        exemplifies: synset.exemplifies,
        entails: synset.entails,
        hypernym: synset.hypernym,
        instance_hypernym: synset.instance_hypernym,
        mero_member: synset.mero_member,
        mero_part: synset.mero_part,
        mero_substance: synset.mero_substance,
        similar: synset.similar,
        hyponym: synset.hyponym,
        is_caused_by: synset.is_caused_by,
        has_domain_region: synset.has_domain_region,
        has_domain_topic: synset.has_domain_topic,
        is_exemplified_by: synset.is_exemplified_by,
        is_entailed_by: synset.is_entailed_by,
        instance_hyponym: synset.instance_hyponym,
        holo_member: synset.holo_member,
        holo_part: synset.holo_part,
        holo_substance: synset.holo_substance,
        antonym: synset.antonym,
        participle: synset.participle,
        is_participle_of: synset.is_participle_of,
        pertainym: synset.pertainym,
        is_pertainym_of: synset.is_pertainym_of,
        derivation: synset.derivation,
        exemplifies_sense: synset.exemplifies_sense,
        is_exemplified_by_sense: synset.is_exemplified_by_sense,
        agent: synset.agent,
        is_agent_of: synset.is_agent_of,
        material: synset.material,
        is_material_of: synset.is_material_of,
        event: synset.event,
        is_event_of: synset.is_event_of,
        instrument: synset.instrument,
        is_instrument_of: synset.is_instrument_of,
        location: synset.location,
        is_location_of: synset.is_location_of,
        by_means_of: synset.by_means_of,
        is_by_means_of: synset.is_by_means_of,
        undergoer: synset.undergoer,
        is_undergoer_of: synset.is_undergoer_of,
        property: synset.property,
        is_property_of: synset.is_property_of,
        result: synset.result,
        is_result_of: synset.is_result_of,
        state: synset.state,
        is_state_of: synset.is_state_of,
        uses: synset.uses,
        is_used_by: synset.is_used_by,
        destination: synset.destination,
        is_destination_of: synset.is_destination_of,
        body_part: synset.body_part,
        is_body_part_of: synset.is_body_part_of,
        vehicle: synset.vehicle,
        is_vehicle_of: synset.is_vehicle_of,
    }
}


/// Whether the members of `s` can be resolved against `entries`.
pub(crate) fn members_check(s: &Synset, entries: &Vec<(String, Entries)>, index: Option<&EntriesIndex>) -> (r: bool)
    requires
        index matches Some(ix) ==> ix.indexes(entries@),
    ensures
        r == members_resolvable(*s, entries@),
{
    let ghost ents = entries@;
    let sid = match &s.id {
        Some(i) => i,
        None => return false,
    };
    if s.lexname.is_none() {
        return false;
    }
    let mut k: usize = 0;
    while k < s.members.len()
        invariant
            ents == entries@,
            index matches Some(ix) ==> ix.indexes(entries@),
            s.id == Some(*sid),
            s.lexname is Some,
            k <= s.members.len(),
            forall|j: int| 0 <= j < k ==> lowercase((#[trigger] s.members@[j])@).len() > 0,
            forall|j: int| 0 <= j < k ==> key_pos(ents, entry_key_of((#[trigger] s.members@[j])@)) is Some,
            forall|j: int, x: int, y: int|
                0 <= j < k && 0 <= x < file_of(ents, s.members@[j]@).entries_of(s.members@[j]@).len()
                && 0 <= y < file_of(ents, s.members@[j]@).entries_of(s.members@[j]@)[x].sense@.len()
                && (#[trigger] file_of(ents, s.members@[j]@).entries_of(s.members@[j]@)[x].sense@[y]).synset@ == sid@
                ==> match file_of(ents, s.members@[j]@).entries_of(s.members@[j]@)[x].poskey {
                    Some(p) => p.splits_after_two(),
                    None => true,
                },
        decreases s.members.len() - k,
    {
        let m = &s.members[k];
        let lower = to_lowercase(m.as_str());
        if lower.as_str().is_empty() {
            return false;
        }
        let key = entry_key(m.as_str());
        let fi = match find_key(entries, key.as_str()) {
            Some(i) => i,
            None => return false,
        };
        let es = lookup_entries(entries, index, fi, m.as_str());
        let ghost ges = file_of(ents, m@).entries_of(m@);
        let mut x: usize = 0;
        while x < es.len()
            invariant
                ents == entries@,
                s.id == Some(*sid),
                k < s.members.len(),
                *m == s.members@[k as int],
                ges == file_of(ents, m@).entries_of(m@),
                es@.len() == ges.len(),
                forall|i: int| 0 <= i < es@.len() ==> *(#[trigger] es@[i]) == ges[i],
                x <= es.len(),
                forall|x2: int, y: int|
                    0 <= x2 < x && 0 <= y < ges[x2].sense@.len() && (#[trigger] ges[x2].sense@[y]).synset@ == sid@
                    ==> match ges[x2].poskey {
                        Some(p) => p.splits_after_two(),
                        None => true,
                    },
            decreases es.len() - x,
        {
            let e: &Entry = es[x];
            let ok = match &e.poskey {
                Some(p) => p.can_split_after_two(),
                None => true,
            };
            if !ok {
                let mut y: usize = 0;
                while y < e.sense.len()
                    invariant
                        ents == entries@,
                        s.id == Some(*sid),
                        k < s.members.len(),
                        *m == s.members@[k as int],
                        ges == file_of(ents, m@).entries_of(m@),
                        !(match ges[x as int].poskey {
                            Some(p) => p.splits_after_two(),
                            None => true,
                        }),
                        *e == ges[x as int],
                        x < ges.len(),
                        y <= e.sense.len(),
                        forall|y2: int| 0 <= y2 < y ==> (#[trigger] e.sense@[y2]).synset@ != sid@,
                    decreases e.sense.len() - y,
                {
                    if e.sense[y].synset.same_as(sid) {
                        assert(file_of(ents, s.members@[k as int]@).entries_of(s.members@[k as int]@)[x as int].sense@[y as int].synset@ == sid@);
                        return false;
                    }
                    y += 1;
                }
            }
            x += 1;
        }
        k += 1;
    }
    true
}

/// The synset with its members resolved, or `None` when they cannot be: the synset lacks its
/// identifier or file, a member's lowercase form is empty, a member's entries file is missing,
/// or an entry with a sense of the synset has a key that cannot be cut after two bytes.
pub fn try_synset_with_members(synset: Synset, entries: &Vec<(String, Entries)>) -> (r: Option<MemberSynset>)
    ensures
        r is Some <==> members_resolvable(synset, entries@),
        r matches Some(ms) ==> carries_synset(ms, synset) && members_for(
            ms.members@,
            member_entries(synset.members@, entries@, synset.id->0),
        ),
{
    if members_check(&synset, entries, None) {
        Some(synset_with_members(synset, entries))
    } else {
        None
    }
}

} // verus!
