//! What a search offers: the suggestions of the search box and the synsets that the relation
//! editor's target picker lists, decided from the lexicon lookups that a query makes.

use vstd::prelude::*;
use crate::ids::{PartOfSpeech, SynsetId};
use crate::lexicon::Lexicon;
use crate::model::{Member, MemberSynset};
use crate::web::{strip_id_prefix, without_id_prefix};
use crate::text::{texts, lex_lt, lemma_lex_lt_irreflexive, lemma_lex_lt_total, lemma_lex_lt_transitive, lowercase, str_eq, str_lt, to_lowercase};

verus! {

/// What a suggestion leads to.
#[derive(Debug, PartialEq, Eq, Clone, Copy, Structural)]
pub enum SearchResultKind {
    Lemma,
    Synset,
}

/// One suggestion: `value` is what to look up (a lemma, or a bare synset id such as
/// `00001740-n`), `display` what to show.
#[derive(Debug, PartialEq)]
pub struct SearchResult {
    pub display: String,
    pub kind: SearchResultKind,
    pub value: String,
}

/// A suggestion as text.
pub open spec fn result_view(r: SearchResult) -> (Seq<char>, SearchResultKind, Seq<char>) {
    (r.display@, r.kind, r.value@)
}

/// The suggestions before ranking: each lemma, then each synset id (shown with the export
/// prefix), then each ILI with its synset.
pub open spec fn suggestion_candidates(
    lemmas: Seq<Seq<char>>,
    ssids: Seq<Seq<char>>,
    ilis: Seq<(Seq<char>, Seq<char>)>,
    id_prefix: Seq<char>,
) -> Seq<(Seq<char>, SearchResultKind, Seq<char>)> {
    lemmas.map_values(|l: Seq<char>| (l, SearchResultKind::Lemma, l)) + ssids.map_values(
        |s: Seq<char>| (id_prefix + seq!['-'] + s, SearchResultKind::Synset, s),
    ) + ilis.map_values(
        |p: (Seq<char>, Seq<char>)| (p.0 + seq![' ', '('] + p.1 + seq![')'], SearchResultKind::Synset, p.1),
    )
}

/// The text of a list of string pairs.
pub open spec fn pair_texts(v: Seq<(String, String)>) -> Seq<(Seq<char>, Seq<char>)> {
    v.map_values(|p: (String, String)| (p.0@, p.1@))
}

/// At most the first `n` of `s`.
pub open spec fn at_most<A>(s: Seq<A>, n: nat) -> Seq<A> {
    if n < s.len() {
        s.take(n as int)
    } else {
        s
    }
}

/// Whether the display `a` is listed before the display `b`: by lowercase form, and between
/// two that differ in case alone, the one that comes later in case-sensitive order first.
pub open spec fn ranks_before(a: Seq<char>, b: Seq<char>) -> bool {
    lex_lt(lowercase(a), lowercase(b)) || (lowercase(a) == lowercase(b) && lex_lt(b, a))
}

/// Whether the display `a` at position `i` of the input stays before the display `b` at
/// position `j`: by rank, and between equal displays by position (the ranking is stable).
pub open spec fn in_rank_order(a: Seq<char>, i: int, b: Seq<char>, j: int) -> bool {
    ranks_before(a, b) || (a == b && i < j)
}

/// `pos` lists each of `0..n` once.
pub open spec fn is_permutation(pos: Seq<int>, n: int) -> bool {
    &&& pos.len() == n
    &&& forall|k: int| 0 <= k < n ==> 0 <= #[trigger] pos[k] < n
    &&& forall|a: int, b: int| 0 <= a < b < n ==> #[trigger] pos[a] != #[trigger] pos[b]
}

/// `r` is `input` in rank order, equal displays in their input order.
pub open spec fn ranked(
    r: Seq<(Seq<char>, SearchResultKind, Seq<char>)>,
    input: Seq<(Seq<char>, SearchResultKind, Seq<char>)>,
) -> bool {
    exists|pos: Seq<int>|
        {
            &&& #[trigger] is_permutation(pos, input.len() as int)
            &&& r.len() == input.len()
            &&& forall|k: int| 0 <= k < r.len() ==> #[trigger] r[k] == input[pos[k]]
            &&& forall|a: int, b: int|
                0 <= a < b < r.len() ==> in_rank_order(#[trigger] r[a].0, pos[a], #[trigger] r[b].0, pos[b])
        }
}

/// Ranking is transitive.
pub proof fn lemma_ranks_before_transitive(a: Seq<char>, b: Seq<char>, c: Seq<char>)
    requires
        ranks_before(a, b),
        ranks_before(b, c),
    ensures
        ranks_before(a, c),
{
    let (la, lb, lc) = (lowercase(a), lowercase(b), lowercase(c));
    if lex_lt(la, lb) && lex_lt(lb, lc) {
        lemma_lex_lt_transitive(la, lb, lc);
    } else if lb == lc && la == lb {
        lemma_lex_lt_transitive(c, b, a);
    }
}

/// Of two different displays one ranks before the other.
pub proof fn lemma_ranks_before_total(a: Seq<char>, b: Seq<char>)
    requires
        a != b,
    ensures
        ranks_before(a, b) || ranks_before(b, a),
{
    if lowercase(a) != lowercase(b) {
        lemma_lex_lt_total(lowercase(a), lowercase(b));
    } else {
        lemma_lex_lt_total(a, b);
    }
}

/// Whether the display `a` (lowercase `la`) ranks before the display `b` (lowercase `lb`).
fn display_ranks_before(a: &str, la: &str, b: &str, lb: &str) -> (r: bool)
    requires
        la@ == lowercase(a@),
        lb@ == lowercase(b@),
    ensures
        r == ranks_before(a@, b@),
{
    str_lt(la, lb) || (str_eq(la, lb) && str_lt(b, a))
}

/// `a` followed by `b`.
fn joined(a: &str, b: &str) -> (r: String)
    ensures
        r@ == a@ + b@,
{
    let mut r = a.to_owned();
    r.append(b);
    r
}

/// Taking one more item of `all` adds it to the first `n` unless there are `n` already.
proof fn lemma_at_most_step<A>(all: Seq<A>, i: int, n: nat)
    requires
        0 <= i < all.len(),
    ensures
        at_most(all.take(i + 1), n) == if at_most(all.take(i), n).len() < n {
            at_most(all.take(i), n).push(all[i])
        } else {
            at_most(all.take(i), n)
        },
{
    assert(all.take(i + 1) =~= all.take(i).push(all[i]));
    if i < n {
        assert(at_most(all.take(i), n) =~= all.take(i));
    } else {
        assert(at_most(all.take(i), n) =~= all.take(n as int));
        assert(at_most(all.take(i + 1), n) =~= all.take(n as int));
    }
}

/// The candidates, the first `max_results` of them.
fn candidates(
    lemmas: Vec<String>,
    ssids: Vec<String>,
    ilis: Vec<(String, String)>,
    id_prefix: &str,
    max_results: usize,
) -> (r: Vec<SearchResult>)
    ensures
        r@.map_values(|x: SearchResult| result_view(x)) == at_most(
            suggestion_candidates(texts(lemmas@), texts(ssids@), pair_texts(ilis@), id_prefix@),
            max_results as nat,
        ),
{
    let ghost all = suggestion_candidates(texts(lemmas@), texts(ssids@), pair_texts(ilis@), id_prefix@);
    let ghost nl = lemmas@.len();
    let ghost ns = ssids@.len();
    let mut r: Vec<SearchResult> = Vec::new();
    for l in it: lemmas.into_iter()
        invariant
            it.seq() == lemmas@,
            nl == lemmas@.len(),
            all == suggestion_candidates(texts(lemmas@), texts(ssids@), pair_texts(ilis@), id_prefix@),
            r@.len() <= max_results,
            r@.map_values(|x: SearchResult| result_view(x)) == at_most(all.take(it.index() as int), max_results as nat),
    {
        let ghost before = r@;
        proof {
            let i = it.index() as int;
            assert(all[i] == (lemmas@[i]@, SearchResultKind::Lemma, lemmas@[i]@));
            lemma_at_most_step(all, i, max_results as nat);
        }
        if r.len() < max_results {
            let value = l.clone();
            r.push(SearchResult { display: l, kind: SearchResultKind::Lemma, value });
            assert(r@.map_values(|x: SearchResult| result_view(x)) =~= before.map_values(|x: SearchResult| result_view(x)).push(
                result_view(r@.last()),
            ));
        }
    }
    for s in it: ssids.into_iter()
        invariant
            it.seq() == ssids@,
            nl == lemmas@.len(),
            ns == ssids@.len(),
            all == suggestion_candidates(texts(lemmas@), texts(ssids@), pair_texts(ilis@), id_prefix@),
            r@.len() <= max_results,
            r@.map_values(|x: SearchResult| result_view(x)) == at_most(all.take(nl + it.index()), max_results as nat),
    {
        let ghost before = r@;
        proof {
            let i = it.index() as int;
            assert(all[nl + i] == (id_prefix@ + seq!['-'] + ssids@[i]@, SearchResultKind::Synset, ssids@[i]@));
            lemma_at_most_step(all, nl + i, max_results as nat);
            reveal_strlit("-");
        }
        if r.len() < max_results {
            let prefixed = joined(id_prefix, "-");
            let display = joined(prefixed.as_str(), s.as_str());
            r.push(SearchResult { display, kind: SearchResultKind::Synset, value: s });
            assert(r@.map_values(|x: SearchResult| result_view(x)) =~= before.map_values(|x: SearchResult| result_view(x)).push(
                result_view(r@.last()),
            ));
            assert(result_view(r@.last()) == all[nl + it.index()]);
            assert(r@.map_values(|x: SearchResult| result_view(x)) == at_most(all.take(nl + it.index() + 1), max_results as nat));
        } else {
            assert(r@.map_values(|x: SearchResult| result_view(x)) == at_most(all.take(nl + it.index() + 1), max_results as nat));
        }
    }
    for p in it: ilis.into_iter()
        invariant
            it.seq() == ilis@,
            nl == lemmas@.len(),
            ns == ssids@.len(),
            all == suggestion_candidates(texts(lemmas@), texts(ssids@), pair_texts(ilis@), id_prefix@),
            r@.len() <= max_results,
            r@.map_values(|x: SearchResult| result_view(x)) == at_most(all.take(nl + ns + it.index()), max_results as nat),
    {
        let ghost before = r@;
        proof {
            let i = it.index() as int;
            assert(all[nl + ns + i] == (ilis@[i].0@ + seq![' ', '('] + ilis@[i].1@ + seq![')'], SearchResultKind::Synset, ilis@[i].1@));
            lemma_at_most_step(all, nl + ns + i, max_results as nat);
            reveal_strlit(" (");
            reveal_strlit(")");
        }
        if r.len() < max_results {
            let (ili, ssid) = p;
            let opened = joined(ili.as_str(), " (");
            let inner = joined(opened.as_str(), ssid.as_str());
            let display = joined(inner.as_str(), ")");
            r.push(SearchResult { display, kind: SearchResultKind::Synset, value: ssid });
            assert(r@.map_values(|x: SearchResult| result_view(x)) =~= before.map_values(|x: SearchResult| result_view(x)).push(
                result_view(r@.last()),
            ));
            assert(result_view(r@.last()) == all[nl + ns + it.index()]);
            assert(r@.map_values(|x: SearchResult| result_view(x)) == at_most(all.take(nl + ns + it.index() + 1), max_results as nat));
        } else {
            assert(r@.map_values(|x: SearchResult| result_view(x)) == at_most(all.take(nl + ns + it.index() + 1), max_results as nat));
        }
    }
    assert(all.take(all.len() as int) =~= all);
    r
}

/// How many suggestions a search box query asks for: `max_results`, a hundred when not given.
pub open spec fn suggestion_limit(max_results: Option<usize>) -> nat {
    match max_results {
        Some(n) => n as nat,
        None => 100,
    }
}

/// How many suggestions a search box query asks for, and so how many results each lookup is
/// asked for.
pub fn suggestion_count(max_results: Option<usize>) -> (r: usize)
    ensures
        r == suggestion_limit(max_results),
{
    match max_results {
        Some(n) => n,
        None => 100,
    }
}

/// The suggestions for a search query, ranked from what the lexicon gave for it: `lemmas`, the lemmas
/// that begin with the query; `ssids`, the synset ids that begin with it once its export prefix
/// is stripped; `ilis`, the ILIs that begin with it, each with its synset. The first
/// `max_results` of these (a hundred when not given), in rank order (see `ranks_before`).
pub fn rank_suggestions(
    lemmas: Vec<String>,
    ssids: Vec<String>,
    ilis: Vec<(String, String)>,
    id_prefix: &str,
    max_results: Option<usize>,
) -> (r: Vec<SearchResult>)
    ensures
        ranked(
            r@.map_values(|x: SearchResult| result_view(x)),
            at_most(suggestion_candidates(texts(lemmas@), texts(ssids@), pair_texts(ilis@), id_prefix@), suggestion_limit(max_results)),
        ),
{
    let limit = suggestion_count(max_results);
    let cands = candidates(lemmas, ssids, ilis, id_prefix, limit);
    let n = cands.len();
    let ghost whole = cands@;
    assert(whole.len() == n);
    let ghost input = cands@.map_values(|x: SearchResult| result_view(x));
    let mut out: Vec<SearchResult> = Vec::new();
    let mut lows: Vec<String> = Vec::new();
    let ghost mut pos: Seq<int> = seq![];
    let mut i: usize = 0;
    for x in it: cands.into_iter()
        invariant
            it.seq() == whole,
            input == whole.map_values(|x: SearchResult| result_view(x)),
            i == it.index(),
            i <= whole.len() <= usize::MAX,
            out@.len() == i,
            lows@.len() == i,
            pos.len() == i,
            forall|k: int| 0 <= k < i ==> 0 <= #[trigger] pos[k] < i,
            forall|a: int, b: int| 0 <= a < b < i ==> #[trigger] pos[a] != #[trigger] pos[b],
            forall|k: int| 0 <= k < i ==> result_view(#[trigger] out@[k]) == input[pos[k]],
            forall|k: int| 0 <= k < i ==> (#[trigger] lows@[k])@ == lowercase(out@[k].display@),
            forall|a: int, b: int|
                0 <= a < b < i ==> in_rank_order(#[trigger] out@[a].display@, pos[a], #[trigger] out@[b].display@, pos[b]),
    {
        let low = to_lowercase(x.display.as_str());
        let mut p: usize = 0;
        while p < out.len() && !display_ranks_before(x.display.as_str(), low.as_str(), out[p].display.as_str(), lows[p].as_str())
            invariant
                p <= out@.len(),
                lows@.len() == out@.len(),
                low@ == lowercase(x.display@),
                forall|k: int| 0 <= k < out@.len() ==> (#[trigger] lows@[k])@ == lowercase(out@[k].display@),
                forall|q: int| 0 <= q < p ==> !ranks_before(x.display@, #[trigger] out@[q].display@),
            decreases out@.len() - p,
        {
            p += 1;
        }
        let ghost old_out = out@;
        let ghost old_pos = pos;
        let ghost xv = x.display@;
        proof {
            assert(result_view(x) == input[i as int]);
            assert forall|a: int| 0 <= a < p implies in_rank_order(#[trigger] old_out[a].display@, old_pos[a], xv, i as int) by {
                if old_out[a].display@ != xv {
                    lemma_ranks_before_total(old_out[a].display@, xv);
                }
            }
            assert forall|b: int| p <= b < old_out.len() implies ranks_before(xv, #[trigger] old_out[b].display@) by {
                if b > p {
                    assert(in_rank_order(old_out[p as int].display@, old_pos[p as int], old_out[b].display@, old_pos[b]));
                    if ranks_before(old_out[p as int].display@, old_out[b].display@) {
                        lemma_ranks_before_transitive(xv, old_out[p as int].display@, old_out[b].display@);
                    }
                }
            }
        }
        out.insert(p, x);
        lows.insert(p, low);
        proof {
            pos = old_pos.insert(p as int, i as int);
            assert forall|a: int, b: int| 0 <= a < b < i + 1 implies in_rank_order(
                #[trigger] out@[a].display@,
                pos[a],
                #[trigger] out@[b].display@,
                pos[b],
            ) by {
                if b < p {
                    assert(out@[a] == old_out[a] && out@[b] == old_out[b]);
                } else if b == p {
                    assert(out@[a] == old_out[a]);
                } else if a < p {
                    assert(out@[a] == old_out[a] && out@[b] == old_out[b - 1]);
                    assert(in_rank_order(old_out[a].display@, old_pos[a], old_out[b - 1].display@, old_pos[b - 1]));
                } else if a == p {
                    assert(out@[b] == old_out[b - 1]);
                } else {
                    assert(out@[a] == old_out[a - 1] && out@[b] == old_out[b - 1]);
                    assert(in_rank_order(old_out[a - 1].display@, old_pos[a - 1], old_out[b - 1].display@, old_pos[b - 1]));
                }
            }
            assert forall|k: int| 0 <= k < i + 1 implies result_view(#[trigger] out@[k]) == input[pos[k]] by {
                if k < p {
                    assert(out@[k] == old_out[k]);
                } else if k > p {
                    assert(out@[k] == old_out[k - 1]);
                }
            }
            assert forall|a: int, b: int| 0 <= a < b < i + 1 implies #[trigger] pos[a] != #[trigger] pos[b] by {
                if a < p && b < p {
                } else if a < p && b == p {
                } else if a < p {
                    assert(pos[b] == old_pos[b - 1]);
                } else if a == p {
                    assert(pos[b] == old_pos[b - 1]);
                } else {
                    assert(pos[a] == old_pos[a - 1] && pos[b] == old_pos[b - 1]);
                }
            }
            assert forall|k: int| 0 <= k < i + 1 implies 0 <= #[trigger] pos[k] < i + 1 by {
                if k > p {
                    assert(pos[k] == old_pos[k - 1]);
                }
            }
            assert forall|k: int| 0 <= k < i + 1 implies (#[trigger] lows@[k])@ == lowercase(out@[k].display@) by {
                if k > p {
                    assert(lows@[k] == lows@[k - 1 + 1]);
                }
            }
        }
        i = i + 1;
    }
    proof {
        let rv = out@.map_values(|x: SearchResult| result_view(x));
        assert(is_permutation(pos, input.len() as int));
        assert forall|k: int| 0 <= k < rv.len() implies #[trigger] rv[k] == input[pos[k]] by {
            assert(result_view(out@[k]) == input[pos[k]]);
        }
        assert forall|a: int, b: int| 0 <= a < b < rv.len() implies in_rank_order(#[trigger] rv[a].0, pos[a], #[trigger] rv[b].0, pos[b]) by {
            assert(in_rank_order(out@[a].display@, pos[a], out@[b].display@, pos[b]));
        }
    }
    out
}

/// The text of a list of synset identifiers.
pub open spec fn id_texts(ids: Seq<SynsetId>) -> Seq<Seq<char>> {
    ids.map_values(|i: SynsetId| i@)
}

/// `ids` with `x` added at the end, unless it is there already.
pub open spec fn add_new(ids: Seq<Seq<char>>, x: Seq<char>) -> Seq<Seq<char>> {
    if ids.contains(x) {
        ids
    } else {
        ids.push(x)
    }
}

/// The synsets that the senses of the matching lemmas give, walked in order: each new one is
/// added, and the walk ends at the first sense after which there are `max` or more (so the first
/// sense always counts).
pub open spec fn lemma_phase(senses: Seq<Seq<char>>, max: nat) -> Seq<Seq<char>>
    decreases senses.len(),
{
    if senses.len() == 0 {
        seq![]
    } else {
        let prev = lemma_phase(senses.drop_last(), max);
        if senses.len() > 1 && prev.len() >= max {
            prev
        } else {
            add_new(prev, senses.last())
        }
    }
}

/// `ids` followed by each of `more` that is new.
pub open spec fn add_all_new(ids: Seq<Seq<char>>, more: Seq<Seq<char>>) -> Seq<Seq<char>>
    decreases more.len(),
{
    if more.len() == 0 {
        ids
    } else {
        add_new(add_all_new(ids, more.drop_last()), more.last())
    }
}

/// Whether `ids` holds an identifier that spells `x`.
fn holds_id(ids: &Vec<SynsetId>, x: &SynsetId) -> (r: bool)
    ensures
        r == id_texts(ids@).contains(x@),
{
    let mut k: usize = 0;
    while k < ids.len()
        invariant
            k <= ids@.len(),
            forall|q: int| 0 <= q < k ==> ids@[q]@ != x@,
        decreases ids@.len() - k,
    {
        if ids[k].same_as(x) {
            assert(id_texts(ids@)[k as int] == x@);
            return true;
        }
        k += 1;
    }
    assert forall|q: int| 0 <= q < id_texts(ids@).len() implies id_texts(ids@)[q] != x@ by {
        assert(ids@[q]@ != x@);
    }
    false
}

/// How many synsets a target-picker search lists at most: `max_results`, twenty when not given.
pub open spec fn picker_limit(max_results: Option<usize>) -> nat {
    match max_results {
        Some(n) => n as nat,
        None => 20,
    }
}

/// How many synsets a target-picker search lists at most.
pub fn synset_search_limit(max_results: Option<usize>) -> (r: usize)
    ensures
        r == picker_limit(max_results),
{
    match max_results {
        Some(n) => n,
        None => 20,
    }
}

/// The synsets that a target-picker search finds through lemmas: `senses` are the synsets of
/// the senses of each lemma that begins with the query, lemma after lemma, entry after entry.
pub fn lemma_synset_ids(senses: &Vec<SynsetId>, max_results: usize) -> (r: Vec<SynsetId>)
    ensures
        id_texts(r@) == lemma_phase(id_texts(senses@), max_results as nat),
{
    let mut ids: Vec<SynsetId> = Vec::new();
    let mut k: usize = 0;
    while k < senses.len()
        invariant
            k <= senses@.len(),
            id_texts(ids@) == lemma_phase(id_texts(senses@.take(k as int)), max_results as nat),
        decreases senses@.len() - k,
    {
        let ghost before = ids@;
        proof {
            assert(id_texts(senses@.take(k + 1)).drop_last() =~= id_texts(senses@.take(k as int)));
            assert(id_texts(senses@.take(k + 1)).last() == senses@[k as int]@);
        }
        if k == 0 || ids.len() < max_results {
            if !holds_id(&ids, &senses[k]) {
                ids.push(senses[k].clone());
                assert(id_texts(ids@) =~= id_texts(before).push(senses@[k as int]@));
            }
        }
        k += 1;
    }
    assert(senses@.take(senses@.len() as int) =~= senses@);
    ids
}

/// How many synset ids a target-picker search still asks for by identifier prefix, once the
/// lemmas have given `found`: none when `found` reaches `max_results`.
pub fn ssid_lookup_limit(found: usize, max_results: usize) -> (r: Option<usize>)
    ensures
        r == if found < max_results { Some((max_results - found) as usize) } else { None::<usize> },
{
    if found < max_results {
        Some(max_results - found)
    } else {
        None
    }
}

/// The synsets of a target-picker search: those the lemmas gave, then each of `ssids` (the
/// synset ids that begin with the query) that is new.
pub fn extend_synset_ids(ids: Vec<SynsetId>, ssids: &Vec<String>) -> (r: Vec<SynsetId>)
    ensures
        id_texts(r@) == add_all_new(id_texts(ids@), ssids@.map_values(|s: String| s@)),
{
    let ghost start = id_texts(ids@);
    let mut ids = ids;
    let mut k: usize = 0;
    while k < ssids.len()
        invariant
            k <= ssids@.len(),
            id_texts(ids@) == add_all_new(start, ssids@.map_values(|s: String| s@).take(k as int)),
        decreases ssids@.len() - k,
    {
        let ghost before = ids@;
        let id = SynsetId::new(ssids[k].as_str());
        proof {
            let m = ssids@.map_values(|s: String| s@);
            assert(m.take(k + 1).drop_last() =~= m.take(k as int));
            assert(m.take(k + 1).last() == id@);
        }
        if !holds_id(&ids, &id) {
            ids.push(id);
            assert(id_texts(ids@) =~= id_texts(before).push(ssids@[k as int]@));
        }
        k += 1;
    }
    assert(ssids@.map_values(|s: String| s@).take(ssids@.len() as int) =~= ssids@.map_values(|s: String| s@));
    ids
}

/// No identifier occurs twice.
pub open spec fn distinct_ids(ids: Seq<Seq<char>>) -> bool {
    forall|a: int, b: int| 0 <= a < b < ids.len() ==> #[trigger] ids[a] != #[trigger] ids[b]
}

proof fn lemma_add_new_distinct(ids: Seq<Seq<char>>, x: Seq<char>)
    requires
        distinct_ids(ids),
    ensures
        distinct_ids(add_new(ids, x)),
{
    if !ids.contains(x) {
        assert forall|a: int, b: int| 0 <= a < b < ids.len() + 1 implies #[trigger] ids.push(x)[a] != #[trigger] ids.push(x)[b] by {
            if b == ids.len() {
                assert(ids[a] != x);
            }
        }
    }
}

/// A target-picker search lists each synset once: the lemma walk adds no identifier twice, and
/// neither does adding the identifier matches to a list without repeats.
pub proof fn law_search_lists_each_synset_once(senses: Seq<Seq<char>>, max: nat, ids: Seq<Seq<char>>, more: Seq<Seq<char>>)
    requires
        distinct_ids(ids),
    ensures
        distinct_ids(lemma_phase(senses, max)),
        distinct_ids(add_all_new(ids, more)),
    decreases senses.len() + more.len(),
{
    if senses.len() > 0 {
        law_search_lists_each_synset_once(senses.drop_last(), max, ids, seq![]);
        lemma_add_new_distinct(lemma_phase(senses.drop_last(), max), senses.last());
    }
    if more.len() > 0 {
        law_search_lists_each_synset_once(seq![], max, ids, more.drop_last());
        lemma_add_new_distinct(add_all_new(ids, more.drop_last()), more.last());
    }
}

/// A key pressed in the search box while suggestions are shown.
#[derive(Debug, PartialEq, Eq, Clone, Copy)]
pub enum SuggestionKey {
    Down,
    Up,
    Enter,
    Other,
}

/// What the search box does with a key.
#[derive(Debug, PartialEq, Eq, Clone, Copy)]
pub enum SuggestionStep {
    /// Nothing: the key is left to the box.
    Ignore,
    /// Highlight the suggestion at this index.
    Select(usize),
    /// Open the suggestion at this index.
    Open(usize),
}

/// The step for `key` when suggestion `selected` of `count` is highlighted: down and up move the
/// highlight within the list (a highlight in the list stays in it), enter opens the highlighted
/// suggestion, and with no suggestions every key is left to the box.
pub fn suggestion_keydown(selected: usize, count: usize, key: SuggestionKey) -> (r: SuggestionStep)
    ensures
        r == if count == 0 {
            SuggestionStep::Ignore
        } else {
            match key {
                SuggestionKey::Down => SuggestionStep::Select(
                    (if selected + 1 < count - 1 { selected + 1 } else { count - 1 }) as usize,
                ),
                SuggestionKey::Up => SuggestionStep::Select((if selected > 0 { selected - 1 } else { 0 }) as usize),
                SuggestionKey::Enter => SuggestionStep::Open((if selected < count - 1 { selected as int } else { count - 1 }) as usize),
                SuggestionKey::Other => SuggestionStep::Ignore,
            }
        },
        selected < count ==> (r matches SuggestionStep::Select(i) ==> i < count),
        r matches SuggestionStep::Open(i) ==> i < count,
{
    if count == 0 {
        return SuggestionStep::Ignore;
    }
    match key {
        SuggestionKey::Down => SuggestionStep::Select(if selected < count - 1 { selected + 1 } else { count - 1 }),
        SuggestionKey::Up => SuggestionStep::Select(if selected > 0 { selected - 1 } else { 0 }),
        SuggestionKey::Enter => SuggestionStep::Open(if selected < count - 1 { selected } else { count - 1 }),
        SuggestionKey::Other => SuggestionStep::Ignore,
    }
}

// ---------------------------------------------------------------------------------------------
// Searches over a lexicon.
// ---------------------------------------------------------------------------------------------

/// The first `n` of `v`.
fn first_n(v: Vec<String>, n: usize) -> (r: Vec<String>)
    ensures
        texts(r@) == at_most(texts(v@), n as nat),
{
    let mut r: Vec<String> = Vec::new();
    let mut k: usize = 0;
    while k < v.len() && k < n
        invariant
            k <= v@.len(),
            k <= n,
            texts(r@) == texts(v@).take(k as int),
        decreases v@.len() - k,
    {
        let ghost before = r@;
        r.push(v[k].clone());
        assert(texts(r@) =~= texts(before).push(v@[k as int]@));
        assert(texts(v@).take(k + 1) =~= texts(v@).take(k as int).push(texts(v@)[k as int]));
        k += 1;
    }
    if k == v.len() {
        assert(texts(v@).take(k as int) =~= texts(v@));
    }
    r
}

/// For each ILI of `ks` that the lexicon links to a synset, the ILI and that synset's identifier.
pub open spec fn ili_pairs(l: Lexicon, ks: Seq<Seq<char>>) -> Seq<(Seq<char>, Seq<char>)>
    decreases ks.len(),
{
    if ks.len() == 0 {
        seq![]
    } else {
        ili_pairs(l, ks.drop_last()) + if l.ili_index().contains_key(ks.last()) {
            seq![(ks.last(), l.ili_index()[ks.last()]@)]
        } else {
            seq![]
        }
    }
}

/// The suggestions a search box shows for `query`: the lemmas that begin with it (ignoring
/// case), the synset identifiers that begin with it once its export prefix `id_prefix` is
/// stripped, and the ILIs that begin with it, each lookup cut to the limit, then ranked and cut
/// again (see `rank_suggestions`).
pub fn autocomplete(lexicon: &Lexicon, query: &str, id_prefix: &str, max_results: Option<usize>) -> (r: Vec<SearchResult>)
    ensures
        ranked(
            r@.map_values(|x: SearchResult| result_view(x)),
            at_most(
                suggestion_candidates(
                    at_most(lexicon.lemmas_with_prefix(query@), suggestion_limit(max_results)),
                    at_most(lexicon.ids_with_prefix(without_id_prefix(query@, id_prefix@)), suggestion_limit(max_results)),
                    ili_pairs(*lexicon, at_most(lexicon.ilis_with_prefix(query@), suggestion_limit(max_results))),
                    id_prefix@,
                ),
                suggestion_limit(max_results),
            ),
        ),
{
    let limit = suggestion_count(max_results);
    let lemmas = first_n(lexicon.lemma_by_prefix(query), limit);
    let stripped = strip_id_prefix(query, id_prefix);
    let ssids = first_n(lexicon.ssid_by_prefix(stripped.as_str()), limit);
    let keys = first_n(lexicon.ili_by_prefix(query), limit);
    let mut ilis: Vec<(String, String)> = Vec::new();
    let mut k: usize = 0;
    while k < keys.len()
        invariant
            k <= keys@.len(),
            pair_texts(ilis@) == ili_pairs(*lexicon, texts(keys@).take(k as int)),
        decreases keys@.len() - k,
    {
        let ghost before = ilis@;
        let ghost t = texts(keys@).take(k + 1);
        proof {
            assert(t.drop_last() =~= texts(keys@).take(k as int));
            assert(t.last() == keys@[k as int]@);
        }
        match lexicon.ili_synset(keys[k].as_str()) {
            Some(id) => {
                ilis.push((keys[k].clone(), id.to_string()));
                assert(pair_texts(ilis@) =~= pair_texts(before).push((keys@[k as int]@, id@)));
            },
            None => {},
        }
        k += 1;
    }
    assert(texts(keys@).take(keys@.len() as int) =~= texts(keys@));
    rank_suggestions(lemmas, ssids, ilis, id_prefix, Some(limit))
}

/// A synset the relation editor's target picker offers, with enough to tell it apart.
#[derive(Debug, PartialEq)]
pub struct SynsetCandidate {
    pub id: SynsetId,
    pub members: Vec<String>,
    pub definition: String,
    pub part_of_speech: PartOfSpeech,
}

/// A candidate as text.
pub open spec fn candidate_view(c: SynsetCandidate) -> (Seq<char>, Seq<Seq<char>>, Seq<char>, PartOfSpeech) {
    (c.id@, texts(c.members@), c.definition@, c.part_of_speech)
}

/// The candidate for the synset `m` with identifier `id`: its member lemmas, its first
/// definition (empty when it has none) and its part of speech.
pub open spec fn candidate_of(id: Seq<char>, m: MemberSynset) -> (Seq<char>, Seq<Seq<char>>, Seq<char>, PartOfSpeech) {
    (
        id,
        m.members@.map_values(|x: Member| x.lemma@),
        if m.definition@.len() > 0 { m.definition@[0]@ } else { Seq::<char>::empty() },
        m.part_of_speech,
    )
}

/// The candidates for the identifiers `ids` that the lexicon has synsets for, in order.
pub open spec fn candidates_for(l: Lexicon, ids: Seq<Seq<char>>) -> Seq<(Seq<char>, Seq<Seq<char>>, Seq<char>, PartOfSpeech)>
    decreases ids.len(),
{
    if ids.len() == 0 {
        seq![]
    } else {
        candidates_for(l, ids.drop_last()) + if l.synset_table().contains_key(ids.last()) {
            seq![candidate_of(ids.last(), l.synset_table()[ids.last()])]
        } else {
            seq![]
        }
    }
}

/// The synsets of the lemmas `lemmas`, lemma after lemma, once per membership.
pub open spec fn lemma_senses(l: Lexicon, lemmas: Seq<Seq<char>>) -> Seq<Seq<char>>
    decreases lemmas.len(),
{
    if lemmas.len() == 0 {
        seq![]
    } else {
        lemma_senses(l, lemmas.drop_last()) + if l.lemma_index().contains_key(lemmas.last()) {
            id_texts(l.lemma_index()[lemmas.last()])
        } else {
            Seq::<Seq<char>>::empty()
        }
    }
}

/// The identifiers a target-picker search for `query` lists: those the lemmas that begin with
/// it give (see `lemma_phase`), then, while fewer than `max`, the synset identifiers that begin
/// with it.
pub open spec fn picker_ids(l: Lexicon, query: Seq<char>, max: nat) -> Seq<Seq<char>> {
    let found = lemma_phase(lemma_senses(l, at_most(l.lemmas_with_prefix(query), max)), max);
    if found.len() < max {
        add_all_new(found, at_most(l.ids_with_prefix(query), (max - found.len()) as nat))
    } else {
        found
    }
}

/// The member lemmas of a synset.
fn member_lemmas(ms: &Vec<Member>) -> (r: Vec<String>)
    ensures
        texts(r@) == ms@.map_values(|x: Member| x.lemma@),
{
    let mut r: Vec<String> = Vec::new();
    let mut k: usize = 0;
    while k < ms.len()
        invariant
            k <= ms@.len(),
            texts(r@) == ms@.take(k as int).map_values(|x: Member| x.lemma@),
        decreases ms@.len() - k,
    {
        let ghost before = r@;
        r.push(ms[k].lemma.clone());
        assert(texts(r@) =~= texts(before).push(ms@[k as int].lemma@));
        assert(ms@.take(k + 1).map_values(|x: Member| x.lemma@) =~= ms@.take(k as int).map_values(|x: Member| x.lemma@).push(
            ms@[k as int].lemma@,
        ));
        k += 1;
    }
    assert(ms@.take(ms@.len() as int) =~= ms@);
    r
}

/// The synsets the relation editor's target picker lists for `query`: by lemma, then by
/// identifier (see `picker_ids`), at most `max_results` (twenty when not given), each with its
/// members, first definition and part of speech.
pub fn search_synsets(lexicon: &Lexicon, query: &str, max_results: Option<usize>) -> (r: Vec<SynsetCandidate>)
    ensures
        r@.map_values(|c: SynsetCandidate| candidate_view(c)) == candidates_for(
            *lexicon,
            picker_ids(*lexicon, query@, picker_limit(max_results)),
        ),
{
    let limit = synset_search_limit(max_results);
    let lemmas = first_n(lexicon.lemma_by_prefix(query), limit);
    let mut senses: Vec<SynsetId> = Vec::new();
    let mut k: usize = 0;
    while k < lemmas.len()
        invariant
            k <= lemmas@.len(),
            id_texts(senses@) == lemma_senses(*lexicon, texts(lemmas@).take(k as int)),
        decreases lemmas@.len() - k,
    {
        let ids = lexicon.entry_by_lemma(lemmas[k].as_str());
        let ghost start = id_texts(senses@);
        let mut j: usize = 0;
        while j < ids.len()
            invariant
                j <= ids@.len(),
                id_texts(senses@) == start + id_texts(ids@.take(j as int)),
            decreases ids@.len() - j,
        {
            let ghost before = senses@;
            senses.push(ids[j].clone());
            assert(id_texts(senses@) =~= id_texts(before).push(ids@[j as int]@));
            assert(id_texts(ids@.take(j + 1)) =~= id_texts(ids@.take(j as int)).push(ids@[j as int]@));
            j += 1;
        }
        proof {
            let t = texts(lemmas@).take(k + 1);
            assert(t.drop_last() =~= texts(lemmas@).take(k as int));
            assert(t.last() == lemmas@[k as int]@);
            assert(ids@.take(ids@.len() as int) =~= ids@);
        }
        k += 1;
    }
    assert(texts(lemmas@).take(lemmas@.len() as int) =~= texts(lemmas@));
    let found = lemma_synset_ids(&senses, limit);
    let ids = match ssid_lookup_limit(found.len(), limit) {
        Some(n) => {
            let more = first_n(lexicon.ssid_by_prefix(query), n);
            extend_synset_ids(found, &more)
        },
        None => found,
    };
    let ghost wanted = picker_ids(*lexicon, query@, limit as nat);
    assert(id_texts(ids@) == wanted);
    let mut out: Vec<SynsetCandidate> = Vec::new();
    let mut k: usize = 0;
    while k < ids.len()
        invariant
            k <= ids@.len(),
            out@.map_values(|c: SynsetCandidate| candidate_view(c)) == candidates_for(*lexicon, id_texts(ids@).take(k as int)),
        decreases ids@.len() - k,
    {
        let ghost before = out@;
        let ghost t = id_texts(ids@).take(k + 1);
        proof {
            assert(t.drop_last() =~= id_texts(ids@).take(k as int));
            assert(t.last() == ids@[k as int]@);
        }
        match lexicon.synset_by_id(&ids[k]) {
            Some(m) => {
                let definition = if m.definition.len() > 0 { m.definition[0].clone() } else { String::new() };
                let c = SynsetCandidate {
                    id: ids[k].clone(),
                    members: member_lemmas(&m.members),
                    definition,
                    part_of_speech: m.part_of_speech,
                };
                out.push(c);
                proof {
                    let tm = lexicon.synset_table()[ids@[k as int]@];
                    assert(m.members@.map_values(|x: Member| x.lemma@) =~= tm.members@.map_values(|x: Member| x.lemma@)) by {
                        assert forall|i: int| 0 <= i < m.members@.len() implies m.members@[i].lemma@ == tm.members@[i].lemma@ by {
                            assert(crate::model::member_same(m.members@[i], tm.members@[i]));
                        }
                    }
                    assert(out@.map_values(|c: SynsetCandidate| candidate_view(c)) =~= before.map_values(
                        |c: SynsetCandidate| candidate_view(c),
                    ).push(candidate_of(ids@[k as int]@, tm)));
                }
            },
            None => {},
        }
        k += 1;
    }
    assert(id_texts(ids@).take(ids@.len() as int) =~= id_texts(ids@));
    out
}

} // verus!
