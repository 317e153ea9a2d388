//! Inference of reverse and sense-level links between synsets.
//!
//! Lexicographer files state each relation in one direction only (a synset names its
//! hypernyms, a sense names its antonyms); the reverse direction is inferred here so that every
//! synset carries both.

use vstd::prelude::*;
use vstd::hash_map::StringHashMap;
use crate::ids::{SenseId, SynsetId};
use crate::model::{Synset, Synsets, SynsetRel, SenseRelField, SenseLinkField, SenseRelation, Entries, Entry, Sense, synset_rel, synset_sense_rel, sense_link, same_synset_core, store_in_key_order, synsets_in_key_order, text_before};

verus! {

// ---------------------------------------------------------------------------------------------
// Lookup tables kept as lists of key-value pairs.
// ---------------------------------------------------------------------------------------------

/// `i` is the first position of `m` whose key spells `k`.
pub open spec fn first_at<K: View<V = Seq<char>>, V>(m: Seq<(K, V)>, k: Seq<char>, i: int) -> bool {
    &&& 0 <= i < m.len()
    &&& m[i].0@ == k
    &&& forall|j: int| 0 <= j < i ==> (#[trigger] m[j]).0@ != k
}

/// The first position of `m` whose key spells `k`, if any: what a map lookup of `k` finds.
pub open spec fn key_pos<K: View<V = Seq<char>>, V>(m: Seq<(K, V)>, k: Seq<char>) -> Option<int> {
    if exists|i: int| first_at(m, k, i) {
        Some(choose|i: int| first_at(m, k, i))
    } else {
        None
    }
}

pub proof fn lemma_first_at_unique<K: View<V = Seq<char>>, V>(
    m: Seq<(K, V)>,
    k: Seq<char>,
    i: int,
    i2: int,
)
    requires
        first_at(m, k, i),
        first_at(m, k, i2),
    ensures
        i == i2,
{
    if i < i2 {
        assert(m[i].0@ != k);
    } else if i2 < i {
        assert(m[i2].0@ != k);
    }
}

pub proof fn lemma_key_pos_found<K: View<V = Seq<char>>, V>(m: Seq<(K, V)>, k: Seq<char>, i: int)
    requires
        first_at(m, k, i),
    ensures
        key_pos(m, k) == Some(i),
{
    let c = choose|c: int| first_at(m, k, c);
    lemma_first_at_unique(m, k, i, c);
}

pub proof fn lemma_key_pos_absent<K: View<V = Seq<char>>, V>(m: Seq<(K, V)>, k: Seq<char>)
    requires
        forall|j: int| 0 <= j < m.len() ==> (#[trigger] m[j]).0@ != k,
    ensures
        key_pos(m, k) is None,
{
}

pub proof fn lemma_key_pos_some<K: View<V = Seq<char>>, V>(m: Seq<(K, V)>, k: Seq<char>)
    requires
        key_pos(m, k) is Some,
    ensures
        first_at(m, k, key_pos(m, k)->0),
{
}

/// Two tables with the same keys in the same order answer every lookup alike.
pub proof fn lemma_key_pos_same_keys<K: View<V = Seq<char>>, V1, V2>(
    a: Seq<(K, V1)>,
    b: Seq<(K, V2)>,
    k: Seq<char>,
)
    requires
        a.len() == b.len(),
        forall|i: int| 0 <= i < a.len() ==> (#[trigger] a[i]).0@ == b[i].0@,
    ensures
        key_pos(a, k) == key_pos(b, k),
{
    assert forall|i: int| first_at(a, k, i) <==> first_at(b, k, i) by {
        if first_at(a, k, i) {
            assert forall|j: int| 0 <= j < i implies (#[trigger] b[j]).0@ != k by {
                assert(a[j].0@ != k);
            }
        }
        if first_at(b, k, i) {
            assert forall|j: int| 0 <= j < i implies (#[trigger] a[j]).0@ != k by {
                assert(b[j].0@ != k);
            }
        }
    }
    if key_pos(a, k) is Some {
        let i = key_pos(a, k)->0;
        lemma_key_pos_found(b, k, i);
    } else {
        if key_pos(b, k) is Some {
            let i = key_pos(b, k)->0;
            assert(first_at(a, k, i));
        }
    }
}

fn find_lexfile_of(map: &Vec<(SynsetId, String)>, id: &SynsetId) -> (r: Option<usize>)
    ensures
        match r {
            Some(i) => key_pos(map@, id@) == Some(i as int),
            None => key_pos(map@, id@) is None,
        },
{
    let mut i: usize = 0;
    while i < map.len()
        invariant
            i <= map.len(),
            forall|j: int| 0 <= j < i ==> (#[trigger] map@[j]).0@ != id@,
        decreases map.len() - i,
    {
        if map[i].0.same_as(id) {
            proof {
                lemma_key_pos_found(map@, id@, i as int);
            }
            return Some(i);
        }
        i += 1;
    }
    None
}

fn find_lexfile_index(store: &Vec<(String, Synsets)>, lex: &String) -> (r: Option<usize>)
    ensures
        match r {
            Some(i) => key_pos(store@, lex@) == Some(i as int),
            None => key_pos(store@, lex@) is None,
        },
{
    let mut i: usize = 0;
    while i < store.len()
        invariant
            i <= store.len(),
            forall|j: int| 0 <= j < i ==> (#[trigger] store@[j]).0@ != lex@,
        decreases store.len() - i,
    {
        if store[i].0 == *lex {
            proof {
                lemma_key_pos_found(store@, lex@, i as int);
            }
            return Some(i);
        }
        i += 1;
    }
    None
}

fn find_synset_index(ss: &Vec<(SynsetId, Synset)>, id: &SynsetId) -> (r: Option<usize>)
    ensures
        match r {
            Some(i) => key_pos(ss@, id@) == Some(i as int),
            None => key_pos(ss@, id@) is None,
        },
{
    let mut i: usize = 0;
    while i < ss.len()
        invariant
            i <= ss.len(),
            forall|j: int| 0 <= j < i ==> (#[trigger] ss@[j]).0@ != id@,
        decreases ss.len() - i,
    {
        if ss[i].0.same_as(id) {
            proof {
                lemma_key_pos_found(ss@, id@, i as int);
            }
            return Some(i);
        }
        i += 1;
    }
    None
}

// ---------------------------------------------------------------------------------------------
// The synset store: lexicographer file name to that file's synsets.
// ---------------------------------------------------------------------------------------------

/// The synset at position `j` of file `i`.
pub open spec fn syn_at(store: Seq<(String, Synsets)>, i: int, j: int) -> Synset {
    store[i].1.0@[j].1
}

/// `(i, j)` names a synset of the store.
pub open spec fn in_store(store: Seq<(String, Synsets)>, i: int, j: int) -> bool {
    0 <= i < store.len() && 0 <= j < store[i].1.0@.len()
}

/// Where the synset `id` lives: its file is found through `map`, then the synset within it.
pub open spec fn locate(
    store: Seq<(String, Synsets)>,
    map: Seq<(SynsetId, String)>,
    id: Seq<char>,
) -> Option<(int, int)> {
    match key_pos(map, id) {
        None => None,
        Some(a) => match key_pos(store, map[a].1@) {
            None => None,
            Some(i) => match key_pos(store[i].1.0@, id) {
                None => None,
                Some(j) => Some((i, j)),
            },
        },
    }
}

/// Both stores have the same files and the same synset identifiers in the same places.
pub open spec fn same_shape(a: Seq<(String, Synsets)>, b: Seq<(String, Synsets)>) -> bool {
    &&& a.len() == b.len()
    &&& forall|i: int| 0 <= i < a.len() ==> (#[trigger] b[i]).0 == a[i].0
    &&& forall|i: int| 0 <= i < a.len() ==> (#[trigger] b[i]).1.0@.len() == a[i].1.0@.len()
    &&& forall|i: int, j: int| in_store(a, i, j) ==> (#[trigger] b[i].1.0@[j]).0 == a[i].1.0@[j].0
}

/// Every synset of the store knows its own identifier.
pub open spec fn ids_present(store: Seq<(String, Synsets)>) -> bool {
    forall|i: int, j: int| in_store(store, i, j) ==> (#[trigger] syn_at(store, i, j)).id is Some
}

pub proof fn lemma_locate_same_shape(
    a: Seq<(String, Synsets)>,
    b: Seq<(String, Synsets)>,
    map: Seq<(SynsetId, String)>,
    id: Seq<char>,
)
    requires
        same_shape(a, b),
    ensures
        locate(a, map, id) == locate(b, map, id),
{
    if let Some(x) = key_pos(map, id) {
        let lex = map[x].1@;
        lemma_key_pos_same_keys(a, b, lex);
        if let Some(i) = key_pos(a, lex) {
            lemma_key_pos_some(a, lex);
            let sa = a[i].1.0@;
            let sb = b[i].1.0@;
            assert forall|j: int| 0 <= j < sa.len() implies (#[trigger] sa[j]).0@ == sb[j].0@ by {
                assert(in_store(a, i, j));
                assert(b[i].1.0@[j].0 == a[i].1.0@[j].0);
            }
            lemma_key_pos_same_keys(sa, sb, id);
        }
    }
}

/// `b` is `a` with the synset at `(i, j)` replaced by `s`.
pub open spec fn replaced_at(
    a: Seq<(String, Synsets)>,
    b: Seq<(String, Synsets)>,
    i: int,
    j: int,
    s: Synset,
) -> bool {
    &&& b.len() == a.len()
    &&& forall|k: int| 0 <= k < a.len() && k != i ==> #[trigger] b[k] == a[k]
    &&& b[i].0 == a[i].0
    &&& b[i].1.0@ == a[i].1.0@.update(j, (a[i].1.0@[j].0, s))
}

/// The synset `synset_id` of the store, found through the file it is recorded in.
pub fn synset_by_id_mut<'a>(
    synsets: &'a mut Vec<(String, Synsets)>,
    synset_id: &SynsetId,
    synset_id_to_lexfile: &Vec<(SynsetId, String)>,
) -> (r: Option<&'a mut Synset>)
    ensures
        match r {
            Some(p) => {
                &&& locate(old(synsets)@, synset_id_to_lexfile@, synset_id@) matches Some(
                    loc,
                )
                &&& in_store(old(synsets)@, loc.0, loc.1)
                &&& *p == syn_at(old(synsets)@, loc.0, loc.1)
                &&& replaced_at(old(synsets)@, final(synsets)@, loc.0, loc.1, *final(p))
            },
            None => {
                &&& locate(old(synsets)@, synset_id_to_lexfile@, synset_id@) is None
                &&& final(synsets)@ == old(synsets)@
            },
        },
{
    match find_lexfile_of(synset_id_to_lexfile, synset_id) {
        None => None,
        Some(a) => match find_lexfile_index(synsets, &synset_id_to_lexfile[a].1) {
            None => None,
            Some(i) => {
                proof {
                    lemma_key_pos_some(synsets@, synset_id_to_lexfile@[a as int].1@);
                }
                match find_synset_index(&synsets[i].1.0, synset_id) {
                    None => None,
                    Some(j) => {
                        proof {
                            lemma_key_pos_some(synsets@[i as int].1.0@, synset_id@);
                        }
                        Some(&mut synsets[i].1.0[j].1)
                    },
                }
            },
        },
    }
}

/// A table that has a pair with key `k` answers a lookup of `k`.
pub proof fn lemma_key_pos_exists<K: View<V = Seq<char>>, V>(m: Seq<(K, V)>, k: Seq<char>, j: int)
    requires
        0 <= j < m.len(),
        m[j].0@ == k,
    ensures
        key_pos(m, k) is Some,
    decreases j,
{
    if forall|d: int| 0 <= d < j ==> (#[trigger] m[d]).0@ != k {
        assert(first_at(m, k, j));
    } else {
        let d = choose|d: int| 0 <= d < j && (#[trigger] m[d]).0@ == k;
        lemma_key_pos_exists(m, k, d);
    }
}

/// Extending a table by one pair changes a lookup only when the key was absent and the new
/// pair carries it.
pub proof fn lemma_key_pos_extend<K: View<V = Seq<char>>, V>(m: Seq<(K, V)>, a: int, k: Seq<char>)
    requires
        0 <= a < m.len(),
    ensures
        key_pos(m.take(a + 1), k) == if key_pos(m.take(a), k) is Some {
            key_pos(m.take(a), k)
        } else if m[a].0@ == k {
            Some(a)
        } else {
            None::<int>
        },
{
    let t = m.take(a);
    let u = m.take(a + 1);
    if key_pos(t, k) is Some {
        let x = key_pos(t, k)->0;
        lemma_key_pos_some(t, k);
        assert forall|j: int| 0 <= j < x implies (#[trigger] u[j]).0@ != k by {
            assert(u[j] == t[j]);
        }
        assert(u[x] == t[x]);
        lemma_key_pos_found(u, k, x);
    } else {
        assert forall|j: int| 0 <= j < a implies (#[trigger] t[j]).0@ != k by {
            if t[j].0@ == k {
                lemma_key_pos_exists(t, k, j);
            }
        }
        if m[a].0@ == k {
            assert forall|j: int| 0 <= j < a implies (#[trigger] u[j]).0@ != k by {
                assert(u[j] == t[j]);
            }
            lemma_key_pos_found(u, k, a);
        } else {
            assert forall|j: int| 0 <= j < u.len() implies (#[trigger] u[j]).0@ != k by {
                if j < a {
                    assert(u[j] == t[j]);
                }
            }
            lemma_key_pos_absent(u, k);
        }
    }
}

/// An index from synset identifiers to their place in a store, built once so that each lookup
/// takes constant time.
pub struct Locator {
    targets: StringHashMap<(usize, usize)>,
}

impl Locator {
    /// The index answers `locate` on `store` and `map`.
    pub closed spec fn locates(&self, store: Seq<(String, Synsets)>, map: Seq<(SynsetId, String)>) -> bool {
        forall|k: Seq<char>|
            #![trigger self.targets@.contains_key(k)]
            #![trigger locate(store, map, k)]
            (self.targets@.contains_key(k) <==> locate(store, map, k) is Some) && (self.targets@.contains_key(k)
                ==> self.targets@[k].0 as int == locate(store, map, k).unwrap().0 && self.targets@[k].1 as int == locate(
                store,
                map,
                k,
            ).unwrap().1)
    }

    /// Where the synset `id` is in the store.
    fn find(&self, id: &SynsetId, Ghost(store): Ghost<Seq<(String, Synsets)>>, Ghost(map): Ghost<Seq<(SynsetId, String)>>) -> (r: Option<(usize, usize)>)
        requires
            self.locates(store, map),
        ensures
            match r {
                Some(p) => locate(store, map, id@) == Some((p.0 as int, p.1 as int)),
                None => locate(store, map, id@) is None,
            },
    {
        match self.targets.get(id.as_str()) {
            Some(p) => Some(*p),
            None => None,
        }
    }
}

pub proof fn lemma_locates_same_shape(
    l: Locator,
    a: Seq<(String, Synsets)>,
    b: Seq<(String, Synsets)>,
    map: Seq<(SynsetId, String)>,
)
    requires
        l.locates(a, map),
        same_shape(a, b),
    ensures
        l.locates(b, map),
{
    assert forall|k: Seq<char>| #[trigger] locate(b, map, k) == locate(a, map, k) by {
        lemma_locate_same_shape(a, b, map, k);
    }
}

/// The position of the first synset of the file `ss` with each identifier.
fn file_index(ss: &Vec<(SynsetId, Synset)>) -> (r: StringHashMap<usize>)
    ensures
        forall|k: Seq<char>|
            #![trigger r@.contains_key(k)]
            #![trigger key_pos(ss@, k)]
            (r@.contains_key(k) <==> key_pos(ss@, k) is Some) && (r@.contains_key(k) ==> r@[k] as int == key_pos(ss@, k)->0),
{
    let mut idx: StringHashMap<usize> = StringHashMap::new();
    let mut j: usize = 0;
    while j < ss.len()
        invariant
            j <= ss@.len(),
            forall|k: Seq<char>|
                #![trigger idx@.contains_key(k)]
                #![trigger key_pos(ss@.take(j as int), k)]
                (idx@.contains_key(k) <==> key_pos(ss@.take(j as int), k) is Some) && (idx@.contains_key(k)
                    ==> idx@[k] as int == key_pos(ss@.take(j as int), k)->0),
        decreases ss@.len() - j,
    {
        let id = &ss[j].0;
        let ghost before = idx@;
        if !idx.contains_key(id.as_str()) {
            idx.insert(id.to_string(), j);
        }
        proof {
            assert forall|k: Seq<char>|
                #![trigger idx@.contains_key(k)]
                #![trigger key_pos(ss@.take(j + 1), k)]
                (idx@.contains_key(k) <==> key_pos(ss@.take(j + 1), k) is Some) && (idx@.contains_key(k)
                    ==> idx@[k] as int == key_pos(ss@.take(j + 1), k)->0) by {
                lemma_key_pos_extend(ss@, j as int, k);
                assert(before.contains_key(k) <==> key_pos(ss@.take(j as int), k) is Some);
            }
        }
        j += 1;
    }
    assert(ss@.take(ss@.len() as int) =~= ss@);
    idx
}

/// Builds the index of where each synset of `map` is in `store`.
pub fn build_locator(store: &Vec<(String, Synsets)>, map: &Vec<(SynsetId, String)>) -> (r: Locator)
    ensures
        r.locates(store@, map@),
{
    let mut files: Vec<StringHashMap<usize>> = Vec::new();
    let mut i: usize = 0;
    while i < store.len()
        invariant
            i <= store@.len(),
            files@.len() == i,
            forall|f: int, k: Seq<char>|
                #![trigger files@[f]@.contains_key(k)]
                #![trigger key_pos(store@[f].1.0@, k), files@[f]]
                0 <= f < i ==> (files@[f]@.contains_key(k) <==> key_pos(store@[f].1.0@, k) is Some) && (files@[f]@.contains_key(k)
                    ==> files@[f]@[k] as int == key_pos(store@[f].1.0@, k)->0),
        decreases store@.len() - i,
    {
        let idx = file_index(&store[i].1.0);
        files.push(idx);
        i += 1;
    }
    let mut seen: StringHashMap<usize> = StringHashMap::new();
    let mut targets: StringHashMap<(usize, usize)> = StringHashMap::new();
    let mut a: usize = 0;
    while a < map.len()
        invariant
            a <= map@.len(),
            files@.len() == store@.len(),
            forall|f: int, k: Seq<char>|
                #![trigger files@[f]@.contains_key(k)]
                #![trigger key_pos(store@[f].1.0@, k), files@[f]]
                0 <= f < store@.len() ==> (files@[f]@.contains_key(k) <==> key_pos(store@[f].1.0@, k) is Some) && (files@[f]@.contains_key(k)
                    ==> files@[f]@[k] as int == key_pos(store@[f].1.0@, k)->0),
            forall|k: Seq<char>|
                #![trigger seen@.contains_key(k)]
                #![trigger key_pos(map@.take(a as int), k)]
                seen@.contains_key(k) <==> key_pos(map@.take(a as int), k) is Some,
            forall|k: Seq<char>|
                #![trigger targets@.contains_key(k)]
                #![trigger locate(store@, map@, k)]
                (targets@.contains_key(k) <==> (key_pos(map@.take(a as int), k) is Some && locate(store@, map@, k) is Some))
                    && (targets@.contains_key(k) ==> targets@[k].0 as int == locate(store@, map@, k).unwrap().0
                    && targets@[k].1 as int == locate(store@, map@, k).unwrap().1),
            forall|k: Seq<char>| #[trigger] key_pos(map@.take(a as int), k) is Some ==> key_pos(map@, k) == key_pos(map@.take(a as int), k),
        decreases map@.len() - a,
    {
        let id = &map[a].0;
        let ghost k0 = id@;
        proof {
            assert forall|k: Seq<char>| #[trigger] key_pos(map@.take(a + 1), k) == if key_pos(map@.take(a as int), k) is Some {
                key_pos(map@.take(a as int), k)
            } else if map@[a as int].0@ == k {
                Some(a as int)
            } else {
                None::<int>
            } by {
                lemma_key_pos_extend(map@, a as int, k);
            }
        }
        if !seen.contains_key(id.as_str()) {
            seen.insert(id.to_string(), a);
            proof {
                assert(key_pos(map@.take(a + 1), k0) == Some(a as int));
                assert forall|j: int| 0 <= j < a implies (#[trigger] map@[j]).0@ != k0 by {
                    if map@[j].0@ == k0 {
                        assert(map@.take(a as int)[j] == map@[j]);
                        lemma_key_pos_exists(map@.take(a as int), k0, j);
                    }
                }
                lemma_key_pos_found(map@, k0, a as int);
            }
            match find_lexfile_index(store, &map[a].1) {
                Some(fi) => {
                    proof {
                        lemma_key_pos_some(store@, map@[a as int].1@);
                    }
                    match files[fi].get(id.as_str()) {
                        Some(j) => {
                            targets.insert(id.to_string(), (fi, *j));
                        },
                        None => {},
                    }
                },
                None => {},
            }
        }
        proof {
            assert forall|k: Seq<char>| #[trigger] key_pos(map@.take(a + 1), k) is Some implies key_pos(map@, k) == key_pos(map@.take(a + 1), k) by {
                if key_pos(map@.take(a as int), k) is None {
                    assert(map@[a as int].0@ == k);
                    assert(k == k0);
                }
            }
        }
        a += 1;
    }
    proof {
        assert(map@.take(map@.len() as int) =~= map@);
    }
    Locator { targets }
}

/// The synset `synset_id` of the store, found through a locator built on an earlier store of
/// the same shape.
fn synset_located<'a>(
    synsets: &'a mut Vec<(String, Synsets)>,
    locator: &Locator,
    synset_id: &SynsetId,
    Ghost(start): Ghost<Seq<(String, Synsets)>>,
    Ghost(map): Ghost<Seq<(SynsetId, String)>>,
) -> (r: Option<&'a mut Synset>)
    requires
        locator.locates(start, map),
        same_shape(start, old(synsets)@),
    ensures
        match r {
            Some(p) => {
                &&& locate(old(synsets)@, map, synset_id@) matches Some(loc)
                &&& in_store(old(synsets)@, loc.0, loc.1)
                &&& *p == syn_at(old(synsets)@, loc.0, loc.1)
                &&& replaced_at(old(synsets)@, final(synsets)@, loc.0, loc.1, *final(p))
            },
            None => {
                &&& locate(old(synsets)@, map, synset_id@) is None
                &&& final(synsets)@ == old(synsets)@
            },
        },
{
    proof {
        lemma_locate_same_shape(start, synsets@, map, synset_id@);
    }
    match locator.find(synset_id, Ghost(start), Ghost(map)) {
        Some((i, j)) => {
            proof {
                lemma_locate_in_store(start, map, synset_id@);
            }
            Some(&mut synsets[i].1.0[j].1)
        },
        None => None,
    }
}

// ---------------------------------------------------------------------------------------------
// Reverse links between synsets.
// ---------------------------------------------------------------------------------------------

/// The `(source, target)` pairs that relation `r` of one synset states.
pub open spec fn synset_edges(s: Synset, r: SynsetRel) -> Seq<(SynsetId, SynsetId)> {
    synset_rel(s, r)@.map_values(|t: SynsetId| (s.id->0, t))
}

/// The `(source, target)` pairs that relation `r` states across a file, in file order.
pub open spec fn file_edges(ss: Seq<(SynsetId, Synset)>, r: SynsetRel) -> Seq<(SynsetId, SynsetId)>
    decreases ss.len(),
{
    if ss.len() == 0 {
        seq![]
    } else {
        file_edges(ss.drop_last(), r) + synset_edges(ss.last().1, r)
    }
}

/// The `(source, target)` pairs that relation `r` states across the store, file after file.
pub open spec fn store_edges(store: Seq<(String, Synsets)>, r: SynsetRel) -> Seq<(SynsetId, SynsetId)>
    decreases store.len(),
{
    if store.len() == 0 {
        seq![]
    } else {
        store_edges(store.drop_last(), r) + file_edges(store.last().1.0@, r)
    }
}

/// The sources of those `edges` whose target is the synset at `loc`, in order: what the
/// reverse link of the synset at `loc` gains.
pub open spec fn reverse_contrib(
    edges: Seq<(SynsetId, SynsetId)>,
    store: Seq<(String, Synsets)>,
    map: Seq<(SynsetId, String)>,
    loc: (int, int),
) -> Seq<SynsetId>
    decreases edges.len(),
{
    if edges.len() == 0 {
        seq![]
    } else {
        reverse_contrib(edges.drop_last(), store, map, loc) + (if locate(
            store,
            map,
            edges.last().1@,
        ) == Some(loc) {
            seq![edges.last().0]
        } else {
            seq![]
        })
    }
}

/// Every `(source, target)` pair that relation `r` states in the store, in store order.
fn collect_edges(store: &Vec<(String, Synsets)>, r: SynsetRel) -> (out: Vec<(SynsetId, SynsetId)>)
    requires
        ids_present(store@),
    ensures
        out@ == store_edges(store@, r),
{
    let mut out: Vec<(SynsetId, SynsetId)> = Vec::new();
    let mut i: usize = 0;
    while i < store.len()
        invariant
            i <= store.len(),
            ids_present(store@),
            out@ == store_edges(store@.take(i as int), r),
        decreases store.len() - i,
    {
        let ss = &store[i].1.0;
        let mut j: usize = 0;
        while j < ss.len()
            invariant
                i < store.len(),
                j <= ss.len(),
                *ss == store@[i as int].1.0,
                ids_present(store@),
                out@ == store_edges(store@.take(i as int), r) + file_edges(ss@.take(j as int), r),
            decreases ss.len() - j,
        {
            let s = &ss[j].1;
            assert(in_store(store@, i as int, j as int));
            assert(syn_at(store@, i as int, j as int).id is Some);
            let id = s.id.as_ref().unwrap();
            let targets = s.rel(r);
            let ghost base = out@;
            let mut t: usize = 0;
            while t < targets.len()
                invariant
                    t <= targets.len(),
                    *targets == synset_rel(*s, r),
                    s.id == Some(*id),
                    out@ == base + synset_edges(*s, r).take(t as int),
                decreases targets.len() - t,
            {
                out.push((id.clone(), targets[t].clone()));
                proof {
                    assert(synset_edges(*s, r).take(t + 1) =~= synset_edges(*s, r).take(
                        t as int,
                    ).push((*id, targets@[t as int])));
                }
                t += 1;
            }
            proof {
                assert(synset_edges(*s, r).take(t as int) =~= synset_edges(*s, r));
                assert(ss@.take(j + 1).drop_last() =~= ss@.take(j as int));
                assert(file_edges(ss@.take(j + 1), r) == file_edges(ss@.take(j as int), r)
                    + synset_edges(*s, r));
                assert(out@ =~= store_edges(store@.take(i as int), r) + file_edges(
                    ss@.take(j + 1),
                    r,
                ));
            }
            j += 1;
        }
        proof {
            assert(ss@.take(j as int) =~= ss@);
            assert(store@.take(i + 1).drop_last() =~= store@.take(i as int));
            assert(store_edges(store@.take(i + 1), r) == store_edges(store@.take(i as int), r)
                + file_edges(ss@, r));
        }
        i += 1;
    }
    assert(store@.take(i as int) =~= store@);
    out
}

/// For every `(source, target)` pair that relation `rel` states, appends `source` to the
/// `inv` relation of the target synset (when the target is in the store).
pub fn link_synset_rel(
    synsets: &mut Vec<(String, Synsets)>,
    synset_id_to_lexfile: &Vec<(SynsetId, String)>,
    locator: &Locator,
    rel: SynsetRel,
    inv: SynsetRel,
)
    requires
        ids_present(old(synsets)@),
        locator.locates(old(synsets)@, synset_id_to_lexfile@),
    ensures
        same_shape(old(synsets)@, final(synsets)@),
        forall|i: int, j: int|
            in_store(old(synsets)@, i, j) ==> {
                let o = syn_at(old(synsets)@, i, j);
                let f = #[trigger] syn_at(final(synsets)@, i, j);
                &&& same_synset_core(f, o)
                &&& forall|q: SynsetRel| q != inv ==> #[trigger] synset_rel(f, q) == synset_rel(o, q)
                &&& synset_rel(f, inv)@ == synset_rel(o, inv)@ + reverse_contrib(
                    store_edges(old(synsets)@, rel),
                    old(synsets)@,
                    synset_id_to_lexfile@,
                    (i, j),
                )
                &&& forall|q: SenseRelField| #[trigger] synset_sense_rel(f, q) == synset_sense_rel(o, q)
            },
{
    let edges = collect_edges(synsets, rel);
    let ghost start = synsets@;
    let ghost map = synset_id_to_lexfile@;
    let mut k: usize = 0;
    while k < edges.len()
        invariant
            k <= edges.len(),
            edges@ == store_edges(start, rel),
            map == synset_id_to_lexfile@,
            locator.locates(start, map),
            same_shape(start, synsets@),
            forall|i: int, j: int|
                in_store(start, i, j) ==> {
                    let o = syn_at(start, i, j);
                    let f = #[trigger] syn_at(synsets@, i, j);
                    &&& same_synset_core(f, o)
                    &&& forall|q: SynsetRel| q != inv ==> #[trigger] synset_rel(f, q) == synset_rel(o, q)
                    &&& synset_rel(f, inv)@ == synset_rel(o, inv)@ + reverse_contrib(
                        edges@.take(k as int),
                        start,
                        map,
                        (i, j),
                    )
                    &&& forall|q: SenseRelField| #[trigger] synset_sense_rel(f, q) == synset_sense_rel(o, q)
                },
        decreases edges.len() - k,
    {
        let ghost before = synsets@;
        let ghost e = edges@[k as int];
        proof {
            lemma_locate_same_shape(start, before, map, e.1@);
            assert(edges@.take(k + 1).drop_last() =~= edges@.take(k as int));
        }
        match synset_located(synsets, locator, &edges[k].1, Ghost(start), Ghost(map)) {
            Some(p) => {
                p.push_rel(inv, edges[k].0.clone());
            },
            None => {},
        }
        proof {
            assert forall|i: int, j: int| in_store(start, i, j) implies {
                let o = syn_at(start, i, j);
                let f = #[trigger] syn_at(synsets@, i, j);
                &&& same_synset_core(f, o)
                &&& forall|q: SynsetRel| q != inv ==> #[trigger] synset_rel(f, q) == synset_rel(o, q)
                &&& synset_rel(f, inv)@ == synset_rel(o, inv)@ + reverse_contrib(
                    edges@.take(k + 1),
                    start,
                    map,
                    (i, j),
                )
                &&& forall|q: SenseRelField| #[trigger] synset_sense_rel(f, q) == synset_sense_rel(o, q)
            } by {
                assert(in_store(before, i, j));
                let b = syn_at(before, i, j);
                let o = syn_at(start, i, j);
                let f = syn_at(synsets@, i, j);
                if locate(start, map, e.1@) == Some((i, j)) {
                    assert(synset_rel(f, inv)@ =~= synset_rel(o, inv)@ + reverse_contrib(
                        edges@.take(k + 1),
                        start,
                        map,
                        (i, j),
                    ));
                } else {
                    assert(f == b);
                    assert(synset_rel(f, inv)@ =~= synset_rel(o, inv)@ + reverse_contrib(
                        edges@.take(k + 1),
                        start,
                        map,
                        (i, j),
                    ));
                }
            }
        }
        k += 1;
    }
    assert(edges@.take(k as int) =~= edges@);
}

// ---------------------------------------------------------------------------------------------
// Sense-level links mirrored onto synsets.
// ---------------------------------------------------------------------------------------------

/// The senses of one entry, each with the lemma it belongs to.
pub open spec fn entry_sense_list(lemma: String, senses: Seq<Sense>) -> Seq<(String, Sense)> {
    senses.map_values(|s: Sense| (lemma, s))
}

/// The senses of one lemma across its part-of-speech entries, in key order.
pub open spec fn lemma_sense_list(lemma: String, by_pos: Seq<(crate::ids::PosKey, Entry)>) -> Seq<(String, Sense)>
    decreases by_pos.len(),
{
    if by_pos.len() == 0 {
        seq![]
    } else {
        lemma_sense_list(lemma, by_pos.drop_last()) + entry_sense_list(lemma, by_pos.last().1.sense@)
    }
}

/// The senses of one entries file, lemma after lemma.
pub open spec fn file_sense_list(es: Seq<(String, Vec<(crate::ids::PosKey, Entry)>)>) -> Seq<(String, Sense)>
    decreases es.len(),
{
    if es.len() == 0 {
        seq![]
    } else {
        file_sense_list(es.drop_last()) + lemma_sense_list(es.last().0, es.last().1@)
    }
}

/// Every sense of every entries file, each with its lemma, file after file.
pub open spec fn sense_list(entries: Seq<(String, Entries)>) -> Seq<(String, Sense)>
    decreases entries.len(),
{
    if entries.len() == 0 {
        seq![]
    } else {
        sense_list(entries.drop_last()) + file_sense_list(entries.last().1.0@)
    }
}

/// `i` is the last position of `sl` holding a sense with identifier `k`.
pub open spec fn last_sense_at(sl: Seq<(String, Sense)>, k: Seq<char>, i: int) -> bool {
    &&& 0 <= i < sl.len()
    &&& sl[i].1.id@ == k
    &&& forall|j: int| i < j < sl.len() ==> (#[trigger] sl[j]).1.id@ != k
}

/// The lemma and synset of the sense `k`; when several senses share the identifier, the last
/// one read wins.
pub open spec fn sense_lookup(sl: Seq<(String, Sense)>, k: Seq<char>) -> Option<(String, SynsetId)> {
    if exists|i: int| last_sense_at(sl, k, i) {
        let i = choose|i: int| last_sense_at(sl, k, i);
        Some((sl[i].0, sl[i].1.synset))
    } else {
        None
    }
}

proof fn lemma_last_sense_unique(sl: Seq<(String, Sense)>, k: Seq<char>, i: int, i2: int)
    requires
        last_sense_at(sl, k, i),
        last_sense_at(sl, k, i2),
    ensures
        i == i2,
{
    if i < i2 {
        assert(sl[i2].1.id@ != k);
    } else if i2 < i {
        assert(sl[i].1.id@ != k);
    }
}

/// The links of a sense with lemma `lemma` to the senses `ts` that are known, as
/// `(source synset, target synset, source lemma, target lemma)`.
pub open spec fn target_edges(
    sl: Seq<(String, Sense)>,
    lemma: String,
    s: Sense,
    ts: Seq<SenseId>,
) -> Seq<(SynsetId, SynsetId, String, String)>
    decreases ts.len(),
{
    if ts.len() == 0 {
        seq![]
    } else {
        target_edges(sl, lemma, s, ts.drop_last()) + match sense_lookup(sl, ts.last()@) {
            Some(found) => seq![(s.synset, found.1, lemma, found.0)],
            None => seq![],
        }
    }
}

/// The links that field `f` of every sense in `ps` states, in order.
pub open spec fn link_edges_of(
    sl: Seq<(String, Sense)>,
    ps: Seq<(String, Sense)>,
    f: SenseLinkField,
) -> Seq<(SynsetId, SynsetId, String, String)>
    decreases ps.len(),
{
    if ps.len() == 0 {
        seq![]
    } else {
        link_edges_of(sl, ps.drop_last(), f) + target_edges(
            sl,
            ps.last().0,
            ps.last().1,
            sense_link(ps.last().1, f)@,
        )
    }
}

/// The links that field `f` states across all senses.
pub open spec fn link_edges(sl: Seq<(String, Sense)>, f: SenseLinkField) -> Seq<(SynsetId, SynsetId, String, String)> {
    link_edges_of(sl, sl, f)
}

/// The relation recorded on the source synset of a sense link.
pub open spec fn forward_relation(e: (SynsetId, SynsetId, String, String)) -> SenseRelation {
    SenseRelation { target_synset: e.1, source_lemma: e.2, target_lemma: e.3 }
}

/// The relation recorded on the target synset of a sense link.
pub open spec fn backward_relation(e: (SynsetId, SynsetId, String, String)) -> SenseRelation {
    SenseRelation { target_synset: e.0, source_lemma: e.3, target_lemma: e.2 }
}

/// What field `q` of the synset at `loc` gains from the sense links `edges`, recorded forward
/// in field `fwd` of the source synset and backward in field `inv` of the target synset.
pub open spec fn sense_contrib(
    edges: Seq<(SynsetId, SynsetId, String, String)>,
    store: Seq<(String, Synsets)>,
    map: Seq<(SynsetId, String)>,
    loc: (int, int),
    q: SenseRelField,
    fwd: SenseRelField,
    inv: SenseRelField,
) -> Seq<SenseRelation>
    decreases edges.len(),
{
    if edges.len() == 0 {
        seq![]
    } else {
        let e = edges.last();
        sense_contrib(edges.drop_last(), store, map, loc, q, fwd, inv) + (if q == fwd && locate(
            store,
            map,
            e.0@,
        ) == Some(loc) {
            seq![forward_relation(e)]
        } else {
            seq![]
        }) + (if q == inv && locate(store, map, e.1@) == Some(loc) {
            seq![backward_relation(e)]
        } else {
            seq![]
        })
    }
}

/// Every sense with its lemma, in the order of `sense_list`.
fn collect_senses<'a>(entries: &'a Vec<(String, Entries)>) -> (out: Vec<(&'a String, &'a Sense)>)
    ensures
        out@.len() == sense_list(entries@).len(),
        forall|k: int| 0 <= k < out@.len() ==> (*(#[trigger] out@[k]).0, *out@[k].1) == sense_list(entries@)[k],
{
    let mut out: Vec<(&'a String, &'a Sense)> = Vec::new();
    let ghost mut acc: Seq<(String, Sense)> = seq![];
    let mut a: usize = 0;
    while a < entries.len()
        invariant
            a <= entries.len(),
            acc == sense_list(entries@.take(a as int)),
            out@.len() == acc.len(),
            forall|k: int| 0 <= k < out@.len() ==> (*(#[trigger] out@[k]).0, *out@[k].1) == acc[k],
        decreases entries.len() - a,
    {
        let es = &entries[a].1.0;
        let ghost acc_a = acc;
        let mut b: usize = 0;
        while b < es.len()
            invariant
                a < entries.len(),
                *es == entries@[a as int].1.0,
                b <= es.len(),
                acc == acc_a + file_sense_list(es@.take(b as int)),
                out@.len() == acc.len(),
                forall|k: int| 0 <= k < out@.len() ==> (*(#[trigger] out@[k]).0, *out@[k].1) == acc[k],
            decreases es.len() - b,
        {
            let lemma = &es[b].0;
            let by_pos = &es[b].1;
            let ghost acc_b = acc;
            let mut c: usize = 0;
            while c < by_pos.len()
                invariant
                    b < es.len(),
                    *lemma == es@[b as int].0,
                    *by_pos == es@[b as int].1,
                    c <= by_pos.len(),
                    acc == acc_b + lemma_sense_list(*lemma, by_pos@.take(c as int)),
                    out@.len() == acc.len(),
                    forall|k: int| 0 <= k < out@.len() ==> (*(#[trigger] out@[k]).0, *out@[k].1) == acc[k],
                decreases by_pos.len() - c,
            {
                let senses = &by_pos[c].1.sense;
                let ghost acc_c = acc;
                let mut d: usize = 0;
                while d < senses.len()
                    invariant
                        c < by_pos.len(),
                        *senses == by_pos@[c as int].1.sense,
                        d <= senses.len(),
                        acc == acc_c + entry_sense_list(*lemma, senses@.take(d as int)),
                        out@.len() == acc.len(),
                        forall|k: int| 0 <= k < out@.len() ==> (*(#[trigger] out@[k]).0, *out@[k].1) == acc[k],
                    decreases senses.len() - d,
                {
                    let ghost prev = acc;
                    out.push((lemma, &senses[d]));
                    proof {
                        assert(entry_sense_list(*lemma, senses@.take(d + 1)) =~= entry_sense_list(
                            *lemma,
                            senses@.take(d as int),
                        ).push((*lemma, senses@[d as int])));
                        acc = acc_c + entry_sense_list(*lemma, senses@.take(d + 1));
                        assert(acc =~= prev.push((*lemma, senses@[d as int])));
                    }
                    d += 1;
                }
                proof {
                    assert(senses@.take(d as int) =~= senses@);
                    assert(by_pos@.take(c + 1).drop_last() =~= by_pos@.take(c as int));
                    assert(acc =~= acc_b + lemma_sense_list(*lemma, by_pos@.take(c + 1)));
                }
                c += 1;
            }
            proof {
                assert(by_pos@.take(c as int) =~= by_pos@);
                assert(es@.take(b + 1).drop_last() =~= es@.take(b as int));
                assert(acc =~= acc_a + file_sense_list(es@.take(b + 1)));
            }
            b += 1;
        }
        proof {
            assert(es@.take(b as int) =~= es@);
            assert(entries@.take(a + 1).drop_last() =~= entries@.take(a as int));
            assert(acc =~= sense_list(entries@.take(a + 1)));
        }
        a += 1;
    }
    assert(entries@.take(a as int) =~= entries@);
    out
}

/// An index from sense identifiers to the position of the last sense with that identifier.
pub struct SenseIndex {
    last: StringHashMap<usize>,
}

impl SenseIndex {
    /// The index answers `last_sense_at` on `sl`.
    pub closed spec fn indexes(&self, sl: Seq<(String, Sense)>) -> bool {
        forall|k: Seq<char>|
            #![trigger self.last@.contains_key(k)]
            (self.last@.contains_key(k) ==> last_sense_at(sl, k, self.last@[k] as int)) && (!self.last@.contains_key(k)
                ==> forall|i: int| 0 <= i < sl.len() ==> (#[trigger] sl[i]).1.id@ != k)
    }
}

/// Indexes every sense by its identifier; the last sense read wins.
fn build_sense_index(senses: &Vec<(&String, &Sense)>, Ghost(sl): Ghost<Seq<(String, Sense)>>) -> (r: SenseIndex)
    requires
        senses@.len() == sl.len(),
        forall|i: int| 0 <= i < senses@.len() ==> (*(#[trigger] senses@[i]).0, *senses@[i].1) == sl[i],
    ensures
        r.indexes(sl),
{
    let mut last: StringHashMap<usize> = StringHashMap::new();
    let mut x: usize = 0;
    while x < senses.len()
        invariant
            x <= senses@.len(),
            senses@.len() == sl.len(),
            forall|i: int| 0 <= i < senses@.len() ==> (*(#[trigger] senses@[i]).0, *senses@[i].1) == sl[i],
            forall|k: Seq<char>|
                #![trigger last@.contains_key(k)]
                (last@.contains_key(k) ==> last_sense_at(sl.take(x as int), k, last@[k] as int)) && (!last@.contains_key(k)
                    ==> forall|i: int| 0 <= i < x ==> (#[trigger] sl[i]).1.id@ != k),
        decreases senses@.len() - x,
    {
        let sense = senses[x].1;
        let ghost before = last@;
        let ghost k0 = sense.id@;
        proof {
            assert(sl[x as int].1 == *sense);
        }
        last.insert(sense.id.to_string(), x);
        proof {
            let t = sl.take(x as int);
            let u = sl.take(x + 1);
            assert forall|k: Seq<char>|
                #![trigger last@.contains_key(k)]
                (last@.contains_key(k) ==> last_sense_at(u, k, last@[k] as int)) && (!last@.contains_key(k)
                    ==> forall|i: int| 0 <= i < x + 1 ==> (#[trigger] sl[i]).1.id@ != k) by {
                if k == k0 {
                    assert(u[x as int] == sl[x as int]);
                } else if before.contains_key(k) {
                    let v = before[k] as int;
                    assert(last_sense_at(t, k, v));
                    assert(u[v] == t[v]);
                    assert forall|j: int| v < j < u.len() implies (#[trigger] u[j]).1.id@ != k by {
                        if j < x {
                            assert(u[j] == t[j]);
                        } else {
                            assert(u[j] == sl[x as int]);
                        }
                    }
                }
            }
        }
        x += 1;
    }
    assert(sl.take(sl.len() as int) =~= sl);
    SenseIndex { last }
}

/// Finds the last sense with identifier `k` in the sense list.
fn lookup_sense<'a>(
    index: &SenseIndex,
    senses: &Vec<(&'a String, &'a Sense)>,
    k: &SenseId,
    Ghost(sl): Ghost<Seq<(String, Sense)>>,
) -> (r: Option<(&'a String, &'a SynsetId)>)
    requires
        index.indexes(sl),
        senses@.len() == sl.len(),
        forall|i: int| 0 <= i < senses@.len() ==> (*(#[trigger] senses@[i]).0, *senses@[i].1) == sl[i],
    ensures
        match r {
            Some(found) => sense_lookup(sl, k@) == Some((*found.0, *found.1)),
            None => sense_lookup(sl, k@) is None,
        },
{
    match index.last.get(k.as_str()) {
        Some(x) => {
            let x = *x;
            let entry = senses[x];
            proof {
                assert(sl[x as int] == (*entry.0, *entry.1));
                let c = choose|c: int| last_sense_at(sl, k@, c);
                lemma_last_sense_unique(sl, k@, x as int, c);
            }
            Some((entry.0, &entry.1.synset))
        },
        None => None,
    }
}

/// Every sense link that field `f` states, in sense order.
fn collect_link_edges(
    index: &SenseIndex,
    senses: &Vec<(&String, &Sense)>,
    Ghost(sl): Ghost<Seq<(String, Sense)>>,
    f: SenseLinkField,
) -> (out: Vec<(SynsetId, SynsetId, String, String)>)
    requires
        index.indexes(sl),
        senses@.len() == sl.len(),
        forall|i: int| 0 <= i < senses@.len() ==> (*(#[trigger] senses@[i]).0, *senses@[i].1) == sl[i],
    ensures
        out@ == link_edges(sl, f),
{
    let mut out: Vec<(SynsetId, SynsetId, String, String)> = Vec::new();
    let mut i: usize = 0;
    while i < senses.len()
        invariant
            index.indexes(sl),
            i <= senses@.len(),
            senses@.len() == sl.len(),
            forall|x: int| 0 <= x < senses@.len() ==> (*(#[trigger] senses@[x]).0, *senses@[x].1) == sl[x],
            out@ == link_edges_of(sl, sl.take(i as int), f),
        decreases senses@.len() - i,
    {
        let lemma = senses[i].0;
        let sense = senses[i].1;
        proof {
            assert(sl[i as int] == (*lemma, *sense));
        }
        let targets = sense.link(f);
        let ghost base = out@;
        let mut t: usize = 0;
        while t < targets.len()
            invariant
                index.indexes(sl),
                t <= targets.len(),
                *targets == sense_link(*sense, f),
                senses@.len() == sl.len(),
                forall|x: int| 0 <= x < senses@.len() ==> (*(#[trigger] senses@[x]).0, *senses@[x].1) == sl[x],
                out@ == base + target_edges(sl, *lemma, *sense, targets@.take(t as int)),
            decreases targets.len() - t,
        {
            proof {
                assert(targets@.take(t + 1).drop_last() =~= targets@.take(t as int));
            }
            match lookup_sense(index, senses, &targets[t], Ghost(sl)) {
                Some(found) => {
                    out.push((sense.synset.clone(), found.1.clone(), lemma.clone(), found.0.clone()));
                    proof {
                        assert(out@ =~= base + target_edges(sl, *lemma, *sense, targets@.take(t + 1)));
                    }
                },
                None => {
                    proof {
                        assert(out@ =~= base + target_edges(sl, *lemma, *sense, targets@.take(t + 1)));
                    }
                },
            }
            t += 1;
        }
        proof {
            assert(targets@.take(t as int) =~= targets@);
            assert(sl.take(i + 1).drop_last() =~= sl.take(i as int));
            assert(sl.take(i + 1).last() == sl[i as int]);
            assert(out@ =~= link_edges_of(sl, sl.take(i + 1), f));
        }
        i += 1;
    }
    assert(sl.take(i as int) =~= sl);
    out
}

pub proof fn lemma_sense_contrib_other(
    edges: Seq<(SynsetId, SynsetId, String, String)>,
    store: Seq<(String, Synsets)>,
    map: Seq<(SynsetId, String)>,
    loc: (int, int),
    q: SenseRelField,
    fwd: SenseRelField,
    inv: SenseRelField,
)
    requires
        q != fwd,
        q != inv,
    ensures
        sense_contrib(edges, store, map, loc, q, fwd, inv) == Seq::<SenseRelation>::empty(),
    decreases edges.len(),
{
    if edges.len() > 0 {
        lemma_sense_contrib_other(edges.drop_last(), store, map, loc, q, fwd, inv);
        assert(sense_contrib(edges, store, map, loc, q, fwd, inv) =~= Seq::<SenseRelation>::empty());
    }
}

/// The relation-field invariant of a sense-link stage: field `q` of every synset has gained
/// what the first `k` links contribute, and nothing else changed.
pub open spec fn sense_stage_progress(
    start: Seq<(String, Synsets)>,
    cur: Seq<(String, Synsets)>,
    map: Seq<(SynsetId, String)>,
    edges: Seq<(SynsetId, SynsetId, String, String)>,
    fwd: SenseRelField,
    inv: SenseRelField,
) -> bool {
    &&& same_shape(start, cur)
    &&& forall|i: int, j: int|
        in_store(start, i, j) ==> {
            let o = syn_at(start, i, j);
            let f = #[trigger] syn_at(cur, i, j);
            &&& same_synset_core(f, o)
            &&& forall|q: SynsetRel| #[trigger] synset_rel(f, q) == synset_rel(o, q)
            &&& forall|q: SenseRelField| #[trigger] synset_sense_rel(f, q)@ == synset_sense_rel(o, q)@
                + sense_contrib(edges, start, map, (i, j), q, fwd, inv)
        }
}

/// For every sense link that field `f` states, records it forward in field `fwd` of the
/// source synset and backward in field `inv` of the target synset.
fn link_sense_rel(
    synsets: &mut Vec<(String, Synsets)>,
    synset_id_to_lexfile: &Vec<(SynsetId, String)>,
    locator: &Locator,
    index: &SenseIndex,
    senses: &Vec<(&String, &Sense)>,
    Ghost(sl): Ghost<Seq<(String, Sense)>>,
    f: SenseLinkField,
    fwd: SenseRelField,
    inv: SenseRelField,
)
    requires
        locator.locates(old(synsets)@, synset_id_to_lexfile@),
        index.indexes(sl),
        senses@.len() == sl.len(),
        forall|i: int| 0 <= i < senses@.len() ==> (*(#[trigger] senses@[i]).0, *senses@[i].1) == sl[i],
    ensures
        sense_stage_progress(
            old(synsets)@,
            final(synsets)@,
            synset_id_to_lexfile@,
            link_edges(sl, f),
            fwd,
            inv,
        ),
{
    let edges = collect_link_edges(index, senses, Ghost(sl), f);
    let ghost start = synsets@;
    let ghost map = synset_id_to_lexfile@;
    proof {
        assert(edges@.take(0) =~= Seq::<(SynsetId, SynsetId, String, String)>::empty());
        assert forall|i: int, j: int| in_store(start, i, j) implies {
            let o = syn_at(start, i, j);
            let f = #[trigger] syn_at(synsets@, i, j);
            &&& same_synset_core(f, o)
            &&& forall|q: SynsetRel| #[trigger] synset_rel(f, q) == synset_rel(o, q)
            &&& forall|q: SenseRelField| #[trigger] synset_sense_rel(f, q)@ == synset_sense_rel(o, q)@
                + sense_contrib(edges@.take(0), start, map, (i, j), q, fwd, inv)
        } by {
            assert forall|q: SenseRelField| #[trigger] synset_sense_rel(syn_at(synsets@, i, j), q)@
                == synset_sense_rel(syn_at(start, i, j), q)@ + sense_contrib(edges@.take(0), start, map, (i, j), q, fwd, inv) by {
                assert(synset_sense_rel(syn_at(synsets@, i, j), q)@ =~= synset_sense_rel(syn_at(start, i, j), q)@
                    + sense_contrib(edges@.take(0), start, map, (i, j), q, fwd, inv));
            }
        }
    }
    let mut k: usize = 0;
    while k < edges.len()
        invariant
            k <= edges.len(),
            map == synset_id_to_lexfile@,
            locator.locates(start, map),
            sense_stage_progress(start, synsets@, map, edges@.take(k as int), fwd, inv),
        decreases edges.len() - k,
    {
        let ghost before = synsets@;
        let ghost e = edges@[k as int];
        let ghost fr = forward_relation(e);
        let ghost br = backward_relation(e);
        proof {
            lemma_locate_same_shape(start, before, map, e.0@);
            lemma_locate_same_shape(start, before, map, e.1@);
            assert(edges@.take(k + 1).drop_last() =~= edges@.take(k as int));
        }
        let edge = &edges[k];
        match synset_located(synsets, locator, &edge.0, Ghost(start), Ghost(map)) {
            Some(p) => {
                let rel = SenseRelation {
                    target_synset: edge.1.clone(),
                    source_lemma: edge.2.clone(),
                    target_lemma: edge.3.clone(),
                };
                assert(rel == fr);
                p.push_sense_rel(fwd, rel);
            },
            None => {},
        }
        let ghost middle = synsets@;
        proof {
            lemma_locate_same_shape(start, middle, map, e.1@);
        }
        match synset_located(synsets, locator, &edge.1, Ghost(start), Ghost(map)) {
            Some(p) => {
                let rel = SenseRelation {
                    target_synset: edge.0.clone(),
                    source_lemma: edge.3.clone(),
                    target_lemma: edge.2.clone(),
                };
                assert(rel == br);
                p.push_sense_rel(inv, rel);
            },
            None => {},
        }
        proof {
            assert forall|i: int, j: int| in_store(start, i, j) implies {
                let o = syn_at(start, i, j);
                let f = #[trigger] syn_at(synsets@, i, j);
                &&& same_synset_core(f, o)
                &&& forall|q: SynsetRel| #[trigger] synset_rel(f, q) == synset_rel(o, q)
                &&& forall|q: SenseRelField| #[trigger] synset_sense_rel(f, q)@ == synset_sense_rel(o, q)@
                    + sense_contrib(edges@.take(k + 1), start, map, (i, j), q, fwd, inv)
            } by {
                assert(in_store(before, i, j));
                assert(in_store(middle, i, j));
                let o = syn_at(start, i, j);
                let b = syn_at(before, i, j);
                let m = syn_at(middle, i, j);
                let f = syn_at(synsets@, i, j);
                assert forall|q: SenseRelField| #[trigger] synset_sense_rel(f, q)@ == synset_sense_rel(o, q)@
                    + sense_contrib(edges@.take(k + 1), start, map, (i, j), q, fwd, inv) by {
                    let c0 = sense_contrib(edges@.take(k as int), start, map, (i, j), q, fwd, inv);
                    assert(synset_sense_rel(b, q)@ == synset_sense_rel(o, q)@ + c0);
                    if locate(start, map, e.0@) == Some((i, j)) {
                        assert(synset_sense_rel(m, q)@ == if q == fwd { synset_sense_rel(b, q)@.push(fr) } else { synset_sense_rel(b, q)@ });
                    } else {
                        assert(m == b);
                    }
                    if locate(start, map, e.1@) == Some((i, j)) {
                        assert(synset_sense_rel(f, q)@ == if q == inv { synset_sense_rel(m, q)@.push(br) } else { synset_sense_rel(m, q)@ });
                    } else {
                        assert(f == m);
                    }
                    assert(synset_sense_rel(f, q)@ =~= synset_sense_rel(o, q)@
                        + sense_contrib(edges@.take(k + 1), start, map, (i, j), q, fwd, inv));
                }
            }
        }
        k += 1;
    }
    assert(edges@.take(k as int) =~= edges@);
}

// ---------------------------------------------------------------------------------------------
// The whole inference.
// ---------------------------------------------------------------------------------------------

/// The field whose statements a reverse-link field mirrors: `hyponym` mirrors `hypernym`, and
/// so on. Fields that are not inferred have none.
pub open spec fn inverse_of(q: SynsetRel) -> Option<SynsetRel> {
    match q {
        SynsetRel::Hyponym => Some(SynsetRel::Hypernym),
        SynsetRel::InstanceHyponym => Some(SynsetRel::InstanceHypernym),
        SynsetRel::HoloMember => Some(SynsetRel::MeroMember),
        SynsetRel::HoloPart => Some(SynsetRel::MeroPart),
        SynsetRel::HoloSubstance => Some(SynsetRel::MeroSubstance),
        SynsetRel::IsCausedBy => Some(SynsetRel::Causes),
        SynsetRel::IsExemplifiedBy => Some(SynsetRel::Exemplifies),
        SynsetRel::IsEntailedBy => Some(SynsetRel::Entails),
        _ => None,
    }
}

/// The position of the stage that fills a reverse-link field; 8 for fields no stage fills.
pub open spec fn reverse_stage_index(q: SynsetRel) -> int {
    match q {
        SynsetRel::Hyponym => 0,
        SynsetRel::InstanceHyponym => 1,
        SynsetRel::HoloMember => 2,
        SynsetRel::HoloPart => 3,
        SynsetRel::HoloSubstance => 4,
        SynsetRel::IsCausedBy => 5,
        SynsetRel::IsExemplifiedBy => 6,
        SynsetRel::IsEntailedBy => 7,
        _ => 8,
    }
}

/// The stages of reverse-link inference, as `(stated field, inferred field)`.
fn reverse_stage(k: usize) -> (r: (SynsetRel, SynsetRel))
    requires
        k < 8,
    ensures
        inverse_of(r.1) == Some(r.0),
        reverse_stage_index(r.1) == k,
        reverse_stage_index(r.0) == 8,
        forall|q: SynsetRel| #[trigger] reverse_stage_index(q) == k ==> q == r.1,
{
    match k {
        0 => (SynsetRel::Hypernym, SynsetRel::Hyponym),
        1 => (SynsetRel::InstanceHypernym, SynsetRel::InstanceHyponym),
        2 => (SynsetRel::MeroMember, SynsetRel::HoloMember),
        3 => (SynsetRel::MeroPart, SynsetRel::HoloPart),
        4 => (SynsetRel::MeroSubstance, SynsetRel::HoloSubstance),
        5 => (SynsetRel::Causes, SynsetRel::IsCausedBy),
        6 => (SynsetRel::Exemplifies, SynsetRel::IsExemplifiedBy),
        _ => (SynsetRel::Entails, SynsetRel::IsEntailedBy),
    }
}

/// The sense-link stage that fills a sense-relation field of synsets: its position, the sense
/// field it reads, and the forward and backward fields it writes.
pub open spec fn sense_writer(q: SenseRelField) -> (int, SenseLinkField, SenseRelField, SenseRelField) {
    match q {
        SenseRelField::Antonym => (0, SenseLinkField::Antonym, SenseRelField::Antonym, SenseRelField::Antonym),
        SenseRelField::Participle | SenseRelField::IsParticipleOf => (1, SenseLinkField::Participle, SenseRelField::Participle, SenseRelField::IsParticipleOf),
        SenseRelField::Pertainym | SenseRelField::IsPertainymOf => (2, SenseLinkField::Pertainym, SenseRelField::Pertainym, SenseRelField::IsPertainymOf),
        SenseRelField::Derivation => (3, SenseLinkField::Derivation, SenseRelField::Derivation, SenseRelField::Derivation),
        SenseRelField::ExemplifiesSense | SenseRelField::IsExemplifiedBySense => (4, SenseLinkField::Exemplifies, SenseRelField::ExemplifiesSense, SenseRelField::IsExemplifiedBySense),
        SenseRelField::Agent | SenseRelField::IsAgentOf => (5, SenseLinkField::Agent, SenseRelField::Agent, SenseRelField::IsAgentOf),
        SenseRelField::Material | SenseRelField::IsMaterialOf => (6, SenseLinkField::Material, SenseRelField::Material, SenseRelField::IsMaterialOf),
        SenseRelField::Event | SenseRelField::IsEventOf => (7, SenseLinkField::Event, SenseRelField::Event, SenseRelField::IsEventOf),
        SenseRelField::Instrument | SenseRelField::IsInstrumentOf => (8, SenseLinkField::Instrument, SenseRelField::Instrument, SenseRelField::IsInstrumentOf),
        SenseRelField::Location | SenseRelField::IsLocationOf => (9, SenseLinkField::Location, SenseRelField::Location, SenseRelField::IsLocationOf),
        SenseRelField::ByMeansOf | SenseRelField::IsByMeansOf => (10, SenseLinkField::ByMeansOf, SenseRelField::ByMeansOf, SenseRelField::IsByMeansOf),
        SenseRelField::Undergoer | SenseRelField::IsUndergoerOf => (11, SenseLinkField::Undergoer, SenseRelField::Undergoer, SenseRelField::IsUndergoerOf),
        SenseRelField::Property | SenseRelField::IsPropertyOf => (12, SenseLinkField::Property, SenseRelField::Property, SenseRelField::IsPropertyOf),
        SenseRelField::Result | SenseRelField::IsResultOf => (13, SenseLinkField::Result, SenseRelField::Result, SenseRelField::IsResultOf),
        SenseRelField::State | SenseRelField::IsStateOf => (14, SenseLinkField::State, SenseRelField::State, SenseRelField::IsStateOf),
        SenseRelField::Uses | SenseRelField::IsUsedBy => (15, SenseLinkField::Uses, SenseRelField::Uses, SenseRelField::IsUsedBy),
        SenseRelField::Destination | SenseRelField::IsDestinationOf => (16, SenseLinkField::Destination, SenseRelField::Destination, SenseRelField::IsDestinationOf),
        SenseRelField::BodyPart | SenseRelField::IsBodyPartOf => (17, SenseLinkField::BodyPart, SenseRelField::BodyPart, SenseRelField::IsBodyPartOf),
        SenseRelField::Vehicle | SenseRelField::IsVehicleOf => (18, SenseLinkField::Vehicle, SenseRelField::Vehicle, SenseRelField::IsVehicleOf),
    }
}

/// The stages of sense-link inference, as `(sense field read, forward field, backward field)`.
fn sense_stage(k: usize) -> (r: (SenseLinkField, SenseRelField, SenseRelField))
    requires
        k < 19,
    ensures
        sense_writer(r.1) == (k as int, r.0, r.1, r.2),
        sense_writer(r.2) == (k as int, r.0, r.1, r.2),
        forall|q: SenseRelField| (#[trigger] sense_writer(q)).0 == k ==> q == r.1 || q == r.2,
{
    match k {
        0 => (SenseLinkField::Antonym, SenseRelField::Antonym, SenseRelField::Antonym),
        1 => (SenseLinkField::Participle, SenseRelField::Participle, SenseRelField::IsParticipleOf),
        2 => (SenseLinkField::Pertainym, SenseRelField::Pertainym, SenseRelField::IsPertainymOf),
        3 => (SenseLinkField::Derivation, SenseRelField::Derivation, SenseRelField::Derivation),
        4 => (SenseLinkField::Exemplifies, SenseRelField::ExemplifiesSense, SenseRelField::IsExemplifiedBySense),
        5 => (SenseLinkField::Agent, SenseRelField::Agent, SenseRelField::IsAgentOf),
        6 => (SenseLinkField::Material, SenseRelField::Material, SenseRelField::IsMaterialOf),
        7 => (SenseLinkField::Event, SenseRelField::Event, SenseRelField::IsEventOf),
        8 => (SenseLinkField::Instrument, SenseRelField::Instrument, SenseRelField::IsInstrumentOf),
        9 => (SenseLinkField::Location, SenseRelField::Location, SenseRelField::IsLocationOf),
        10 => (SenseLinkField::ByMeansOf, SenseRelField::ByMeansOf, SenseRelField::IsByMeansOf),
        11 => (SenseLinkField::Undergoer, SenseRelField::Undergoer, SenseRelField::IsUndergoerOf),
        12 => (SenseLinkField::Property, SenseRelField::Property, SenseRelField::IsPropertyOf),
        13 => (SenseLinkField::Result, SenseRelField::Result, SenseRelField::IsResultOf),
        14 => (SenseLinkField::State, SenseRelField::State, SenseRelField::IsStateOf),
        15 => (SenseLinkField::Uses, SenseRelField::Uses, SenseRelField::IsUsedBy),
        16 => (SenseLinkField::Destination, SenseRelField::Destination, SenseRelField::IsDestinationOf),
        17 => (SenseLinkField::BodyPart, SenseRelField::BodyPart, SenseRelField::IsBodyPartOf),
        _ => (SenseLinkField::Vehicle, SenseRelField::Vehicle, SenseRelField::IsVehicleOf),
    }
}

/// What reverse-link field `q` of the synset at `loc` gains: the synsets whose mirrored field
/// names it, in store order.
pub open spec fn reverse_links_gained(
    store: Seq<(String, Synsets)>,
    map: Seq<(SynsetId, String)>,
    loc: (int, int),
    q: SynsetRel,
) -> Seq<SynsetId> {
    match inverse_of(q) {
        Some(src) => reverse_contrib(store_edges(store, src), store, map, loc),
        None => seq![],
    }
}

/// What sense-relation field `q` of the synset at `loc` gains from the sense links.
pub open spec fn sense_links_gained(
    sl: Seq<(String, Sense)>,
    store: Seq<(String, Synsets)>,
    map: Seq<(SynsetId, String)>,
    loc: (int, int),
    q: SenseRelField,
) -> Seq<SenseRelation> {
    let w = sense_writer(q);
    sense_contrib(link_edges(sl, w.1), store, map, loc, q, w.2, w.3)
}

proof fn lemma_file_edges_frame(a: Seq<(SynsetId, Synset)>, b: Seq<(SynsetId, Synset)>, r: SynsetRel)
    requires
        a.len() == b.len(),
        forall|j: int| 0 <= j < a.len() ==> (#[trigger] b[j]).1.id == a[j].1.id,
        forall|j: int| 0 <= j < a.len() ==> synset_rel((#[trigger] b[j]).1, r)@ == synset_rel(a[j].1, r)@,
    ensures
        file_edges(a, r) == file_edges(b, r),
    decreases a.len(),
{
    if a.len() > 0 {
        lemma_file_edges_frame(a.drop_last(), b.drop_last(), r);
        let x = a.last().1;
        let y = b.last().1;
        assert(b[a.len() - 1].1.id == a[a.len() - 1].1.id);
        assert(synset_rel(b[a.len() - 1].1, r)@ == synset_rel(a[a.len() - 1].1, r)@);
        assert(synset_edges(x, r) =~= synset_edges(y, r));
    }
}

proof fn lemma_store_edges_frame(a: Seq<(String, Synsets)>, b: Seq<(String, Synsets)>, r: SynsetRel)
    requires
        same_shape(a, b),
        forall|i: int, j: int| in_store(a, i, j) ==> (#[trigger] syn_at(b, i, j)).id == syn_at(a, i, j).id,
        forall|i: int, j: int| in_store(a, i, j) ==> synset_rel(#[trigger] syn_at(b, i, j), r)@ == synset_rel(syn_at(a, i, j), r)@,
    ensures
        store_edges(a, r) == store_edges(b, r),
    decreases a.len(),
{
    if a.len() > 0 {
        let n = a.len() - 1;
        let a2 = a.drop_last();
        let b2 = b.drop_last();
        assert forall|i: int, j: int| in_store(a2, i, j) implies (#[trigger] b2[i].1.0@[j]).0 == a2[i].1.0@[j].0 by {
            assert(in_store(a, i, j));
        }
        assert forall|i: int, j: int| in_store(a2, i, j) implies (#[trigger] syn_at(b2, i, j)).id == syn_at(a2, i, j).id by {
            assert(in_store(a, i, j));
            assert(syn_at(b, i, j).id == syn_at(a, i, j).id);
        }
        assert forall|i: int, j: int| in_store(a2, i, j) implies synset_rel(#[trigger] syn_at(b2, i, j), r)@ == synset_rel(syn_at(a2, i, j), r)@ by {
            assert(in_store(a, i, j));
            assert(synset_rel(syn_at(b, i, j), r)@ == synset_rel(syn_at(a, i, j), r)@);
        }
        lemma_store_edges_frame(a2, b2, r);
        let fa = a[n].1.0@;
        let fb = b[n].1.0@;
        assert(b[n].1.0@.len() == a[n].1.0@.len());
        assert forall|j: int| 0 <= j < fa.len() implies (#[trigger] fb[j]).1.id == fa[j].1.id by {
            assert(in_store(a, n, j));
            assert(syn_at(b, n, j).id == syn_at(a, n, j).id);
        }
        assert forall|j: int| 0 <= j < fa.len() implies synset_rel((#[trigger] fb[j]).1, r)@ == synset_rel(fa[j].1, r)@ by {
            assert(in_store(a, n, j));
            assert(synset_rel(syn_at(b, n, j), r)@ == synset_rel(syn_at(a, n, j), r)@);
        }
        lemma_file_edges_frame(fa, fb, r);
    }
}

proof fn lemma_reverse_contrib_shape(
    edges: Seq<(SynsetId, SynsetId)>,
    a: Seq<(String, Synsets)>,
    b: Seq<(String, Synsets)>,
    map: Seq<(SynsetId, String)>,
    loc: (int, int),
)
    requires
        same_shape(a, b),
    ensures
        reverse_contrib(edges, a, map, loc) == reverse_contrib(edges, b, map, loc),
    decreases edges.len(),
{
    if edges.len() > 0 {
        lemma_reverse_contrib_shape(edges.drop_last(), a, b, map, loc);
        lemma_locate_same_shape(a, b, map, edges.last().1@);
    }
}

proof fn lemma_sense_contrib_shape(
    edges: Seq<(SynsetId, SynsetId, String, String)>,
    a: Seq<(String, Synsets)>,
    b: Seq<(String, Synsets)>,
    map: Seq<(SynsetId, String)>,
    loc: (int, int),
    q: SenseRelField,
    fwd: SenseRelField,
    inv: SenseRelField,
)
    requires
        same_shape(a, b),
    ensures
        sense_contrib(edges, a, map, loc, q, fwd, inv) == sense_contrib(edges, b, map, loc, q, fwd, inv),
    decreases edges.len(),
{
    if edges.len() > 0 {
        lemma_sense_contrib_shape(edges.drop_last(), a, b, map, loc, q, fwd, inv);
        lemma_locate_same_shape(a, b, map, edges.last().0@);
        lemma_locate_same_shape(a, b, map, edges.last().1@);
    }
}

proof fn lemma_same_shape_trans(a: Seq<(String, Synsets)>, b: Seq<(String, Synsets)>, c: Seq<(String, Synsets)>)
    requires
        same_shape(a, b),
        same_shape(b, c),
    ensures
        same_shape(a, c),
{
    assert forall|i: int, j: int| in_store(a, i, j) implies (#[trigger] c[i].1.0@[j]).0 == a[i].1.0@[j].0 by {
        assert(in_store(b, i, j));
        assert(b[i].1.0@[j].0 == a[i].1.0@[j].0);
    }
}

/// A store of the same shape as one whose files and synsets are in key order is in key order:
/// reshaping the synsets moves no key.
pub proof fn lemma_same_shape_keeps_key_order(a: Seq<(String, Synsets)>, b: Seq<(String, Synsets)>)
    requires
        same_shape(a, b),
        store_in_key_order(a),
    ensures
        store_in_key_order(b),
{
    assert forall|i: int, j: int| 0 <= i < j < b.len() implies text_before(#[trigger] b[i].0@, #[trigger] b[j].0@) by {
        assert(b[i].0 == a[i].0);
        assert(b[j].0 == a[j].0);
        assert(text_before(a[i].0@, a[j].0@));
    }
    assert forall|f: int| 0 <= f < b.len() implies synsets_in_key_order(#[trigger] b[f].1) by {
        assert(synsets_in_key_order(a[f].1));
        assert forall|i: int, j: int| 0 <= i < j < b[f].1.0@.len() implies text_before(
            #[trigger] b[f].1.0@[i].0@,
            #[trigger] b[f].1.0@[j].0@,
        ) by {
            assert(in_store(a, f, i) && in_store(a, f, j));
            assert(b[f].1.0@[i].0 == a[f].1.0@[i].0);
            assert(b[f].1.0@[j].0 == a[f].1.0@[j].0);
            assert(text_before(a[f].1.0@[i].0@, a[f].1.0@[j].0@));
        }
    }
}

/// Progress of the reverse-link stages: the first `k` inferred fields have gained their
/// links, and nothing else changed.
pub open spec fn reverse_progress(
    start: Seq<(String, Synsets)>,
    cur: Seq<(String, Synsets)>,
    map: Seq<(SynsetId, String)>,
    k: int,
) -> bool {
    &&& same_shape(start, cur)
    &&& forall|i: int, j: int|
        in_store(start, i, j) ==> {
            let o = syn_at(start, i, j);
            let f = #[trigger] syn_at(cur, i, j);
            &&& same_synset_core(f, o)
            &&& forall|q: SenseRelField| #[trigger] synset_sense_rel(f, q) == synset_sense_rel(o, q)
            &&& forall|q: SynsetRel| #[trigger] synset_rel(f, q)@ == synset_rel(o, q)@ + (if reverse_stage_index(q) < k {
                reverse_links_gained(start, map, (i, j), q)
            } else {
                seq![]
            })
        }
}

/// Progress of the sense-link stages: the fields of the first `k` stages have gained their
/// links, and nothing else changed.
pub open spec fn sense_progress(
    start: Seq<(String, Synsets)>,
    cur: Seq<(String, Synsets)>,
    map: Seq<(SynsetId, String)>,
    sl: Seq<(String, Sense)>,
    k: int,
) -> bool {
    &&& same_shape(start, cur)
    &&& forall|i: int, j: int|
        in_store(start, i, j) ==> {
            let o = syn_at(start, i, j);
            let f = #[trigger] syn_at(cur, i, j);
            &&& same_synset_core(f, o)
            &&& forall|q: SynsetRel| #[trigger] synset_rel(f, q) == synset_rel(o, q)
            &&& forall|q: SenseRelField| #[trigger] synset_sense_rel(f, q)@ == synset_sense_rel(o, q)@ + (if sense_writer(q).0 < k {
                sense_links_gained(sl, start, map, (i, j), q)
            } else {
                seq![]
            })
        }
}

/// `after` is `before` with every reverse link and every sense link added: each synset keeps
/// its identity and data, and each relation field is extended, in order, by what it gains.
pub open spec fn links_added(
    before: Seq<(String, Synsets)>,
    after: Seq<(String, Synsets)>,
    map: Seq<(SynsetId, String)>,
    sl: Seq<(String, Sense)>,
) -> bool {
    &&& same_shape(before, after)
    &&& forall|i: int, j: int|
        in_store(before, i, j) ==> {
            let o = syn_at(before, i, j);
            let f = #[trigger] syn_at(after, i, j);
            &&& same_synset_core(f, o)
            &&& forall|q: SynsetRel| #[trigger] synset_rel(f, q)@ == synset_rel(o, q)@
                + reverse_links_gained(before, map, (i, j), q)
            &&& forall|q: SenseRelField| #[trigger] synset_sense_rel(f, q)@ == synset_sense_rel(o, q)@
                + sense_links_gained(sl, before, map, (i, j), q)
        }
}

/// Augments the synsets with reverse links (a synset's hyponyms are the synsets that name it as
/// their hypernym, and so on) and with the sense-level links of their members' senses,
/// recorded on both the source and the target synset.
pub fn add_reverse_links(
    synsets: &mut Vec<(String, Synsets)>,
    entries: &Vec<(String, Entries)>,
    synset_id_to_lexfile: &Vec<(SynsetId, String)>,
)
    requires
        ids_present(old(synsets)@),
    ensures
        links_added(old(synsets)@, final(synsets)@, synset_id_to_lexfile@, sense_list(entries@)),
        store_in_key_order(old(synsets)@) ==> store_in_key_order(final(synsets)@),
{
    let ghost start = synsets@;
    let ghost map = synset_id_to_lexfile@;
    let locator = build_locator(synsets, synset_id_to_lexfile);
    proof {
        assert forall|i: int, j: int| in_store(start, i, j) implies {
            let o = syn_at(start, i, j);
            let f = #[trigger] syn_at(synsets@, i, j);
            &&& same_synset_core(f, o)
            &&& forall|q: SenseRelField| #[trigger] synset_sense_rel(f, q) == synset_sense_rel(o, q)
            &&& forall|q: SynsetRel| #[trigger] synset_rel(f, q)@ == synset_rel(o, q)@ + (if reverse_stage_index(q) < 0 {
                reverse_links_gained(start, map, (i, j), q)
            } else {
                seq![]
            })
        } by {
            assert forall|q: SynsetRel| #[trigger] synset_rel(syn_at(synsets@, i, j), q)@ == synset_rel(syn_at(start, i, j), q)@ + (if reverse_stage_index(q) < 0 {
                reverse_links_gained(start, map, (i, j), q)
            } else {
                seq![]
            }) by {
                assert(synset_rel(syn_at(synsets@, i, j), q)@ =~= synset_rel(syn_at(start, i, j), q)@ + seq![]);
            }
        }
    }
    let mut k: usize = 0;
    while k < 8
        invariant
            k <= 8,
            map == synset_id_to_lexfile@,
            ids_present(start),
            locator.locates(start, map),
            reverse_progress(start, synsets@, map, k as int),
        decreases 8 - k,
    {
        let (rel, inv) = reverse_stage(k);
        let ghost before = synsets@;
        proof {
            assert forall|i: int, j: int| in_store(start, i, j) implies (#[trigger] syn_at(before, i, j)).id == syn_at(start, i, j).id by {
                assert(same_synset_core(syn_at(before, i, j), syn_at(start, i, j)));
            }
            assert forall|i: int, j: int| in_store(start, i, j) implies synset_rel(#[trigger] syn_at(before, i, j), rel)@ == synset_rel(syn_at(start, i, j), rel)@ by {
                assert(synset_rel(syn_at(before, i, j), rel)@ =~= synset_rel(syn_at(start, i, j), rel)@);
            }
            lemma_store_edges_frame(start, before, rel);
            assert forall|i: int, j: int| in_store(before, i, j) implies (#[trigger] syn_at(before, i, j)).id is Some by {
                assert(in_store(start, i, j));
                assert(same_synset_core(syn_at(before, i, j), syn_at(start, i, j)));
            }
        }
        proof {
            lemma_locates_same_shape(locator, start, before, map);
        }
        link_synset_rel(synsets, synset_id_to_lexfile, &locator, rel, inv);
        proof {
            lemma_same_shape_trans(start, before, synsets@);
            assert forall|i: int, j: int| in_store(start, i, j) implies {
                let o = syn_at(start, i, j);
                let f = #[trigger] syn_at(synsets@, i, j);
                &&& same_synset_core(f, o)
                &&& forall|q: SenseRelField| #[trigger] synset_sense_rel(f, q) == synset_sense_rel(o, q)
                &&& forall|q: SynsetRel| #[trigger] synset_rel(f, q)@ == synset_rel(o, q)@ + (if reverse_stage_index(q) < k + 1 {
                    reverse_links_gained(start, map, (i, j), q)
                } else {
                    seq![]
                })
            } by {
                assert(in_store(before, i, j));
                let o = syn_at(start, i, j);
                let b = syn_at(before, i, j);
                let f = syn_at(synsets@, i, j);
                lemma_reverse_contrib_shape(store_edges(before, rel), before, start, map, (i, j));
                assert forall|q: SynsetRel| #[trigger] synset_rel(f, q)@ == synset_rel(o, q)@ + (if reverse_stage_index(q) < k + 1 {
                    reverse_links_gained(start, map, (i, j), q)
                } else {
                    seq![]
                }) by {
                    if q == inv {
                        assert(synset_rel(f, q)@ =~= synset_rel(o, q)@ + reverse_links_gained(start, map, (i, j), q));
                    } else {
                        assert(synset_rel(f, q) == synset_rel(b, q));
                        if reverse_stage_index(q) == k {
                            assert(q == inv);
                        }
                    }
                }
            }
        }
        k += 1;
    }
    let ghost mid = synsets@;
    let senses = collect_senses(entries);
    let ghost sl = sense_list(entries@);
    let index = build_sense_index(&senses, Ghost(sl));
    proof {
        assert forall|i: int, j: int| in_store(mid, i, j) implies {
            let o = syn_at(mid, i, j);
            let f = #[trigger] syn_at(synsets@, i, j);
            &&& same_synset_core(f, o)
            &&& forall|q: SynsetRel| #[trigger] synset_rel(f, q) == synset_rel(o, q)
            &&& forall|q: SenseRelField| #[trigger] synset_sense_rel(f, q)@ == synset_sense_rel(o, q)@ + (if sense_writer(q).0 < 0 {
                sense_links_gained(sl, mid, map, (i, j), q)
            } else {
                seq![]
            })
        } by {
            assert forall|q: SenseRelField| #[trigger] synset_sense_rel(syn_at(synsets@, i, j), q)@ == synset_sense_rel(syn_at(mid, i, j), q)@ + (if sense_writer(q).0 < 0 {
                sense_links_gained(sl, mid, map, (i, j), q)
            } else {
                seq![]
            }) by {
                assert(synset_sense_rel(syn_at(synsets@, i, j), q)@ =~= synset_sense_rel(syn_at(mid, i, j), q)@ + seq![]);
            }
        }
    }
    let mut k: usize = 0;
    while k < 19
        invariant
            k <= 19,
            map == synset_id_to_lexfile@,
            sl == sense_list(entries@),
            index.indexes(sl),
            locator.locates(start, map),
            same_shape(start, mid),
            senses@.len() == sl.len(),
            forall|x: int| 0 <= x < senses@.len() ==> (*(#[trigger] senses@[x]).0, *senses@[x].1) == sl[x],
            sense_progress(mid, synsets@, map, sl, k as int),
        decreases 19 - k,
    {
        let (f, fwd, inv) = sense_stage(k);
        let ghost before = synsets@;
        proof {
            lemma_same_shape_trans(start, mid, before);
            lemma_locates_same_shape(locator, start, before, map);
        }
        link_sense_rel(synsets, synset_id_to_lexfile, &locator, &index, &senses, Ghost(sl), f, fwd, inv);
        proof {
            lemma_same_shape_trans(mid, before, synsets@);
            assert forall|i: int, j: int| in_store(mid, i, j) implies {
                let o = syn_at(mid, i, j);
                let g = #[trigger] syn_at(synsets@, i, j);
                &&& same_synset_core(g, o)
                &&& forall|q: SynsetRel| #[trigger] synset_rel(g, q) == synset_rel(o, q)
                &&& forall|q: SenseRelField| #[trigger] synset_sense_rel(g, q)@ == synset_sense_rel(o, q)@ + (if sense_writer(q).0 < k + 1 {
                    sense_links_gained(sl, mid, map, (i, j), q)
                } else {
                    seq![]
                })
            } by {
                assert(in_store(before, i, j));
                let o = syn_at(mid, i, j);
                let b = syn_at(before, i, j);
                let g = syn_at(synsets@, i, j);
                assert forall|q: SenseRelField| #[trigger] synset_sense_rel(g, q)@ == synset_sense_rel(o, q)@ + (if sense_writer(q).0 < k + 1 {
                    sense_links_gained(sl, mid, map, (i, j), q)
                } else {
                    seq![]
                }) by {
                    let edges = link_edges(sl, f);
                    lemma_sense_contrib_shape(edges, before, mid, map, (i, j), q, fwd, inv);
                    if q == fwd || q == inv {
                        assert(synset_sense_rel(g, q)@ =~= synset_sense_rel(o, q)@ + sense_links_gained(sl, mid, map, (i, j), q));
                    } else {
                        lemma_sense_contrib_other(edges, before, map, (i, j), q, fwd, inv);
                        assert(synset_sense_rel(g, q)@ =~= synset_sense_rel(b, q)@);
                    }
                }
            }
        }
        k += 1;
    }
    proof {
        lemma_same_shape_trans(start, mid, synsets@);
        assert forall|i: int, j: int| in_store(start, i, j) implies {
            let o = syn_at(start, i, j);
            let f = #[trigger] syn_at(synsets@, i, j);
            &&& same_synset_core(f, o)
            &&& forall|q: SynsetRel| #[trigger] synset_rel(f, q)@ == synset_rel(o, q)@ + reverse_links_gained(start, map, (i, j), q)
            &&& forall|q: SenseRelField| #[trigger] synset_sense_rel(f, q)@ == synset_sense_rel(o, q)@ + sense_links_gained(sl, start, map, (i, j), q)
        } by {
            assert(in_store(mid, i, j));
            let o = syn_at(start, i, j);
            let m = syn_at(mid, i, j);
            let f = syn_at(synsets@, i, j);
            assert forall|q: SynsetRel| #[trigger] synset_rel(f, q)@ == synset_rel(o, q)@ + reverse_links_gained(start, map, (i, j), q) by {
                assert(synset_rel(f, q) == synset_rel(m, q));
                if reverse_stage_index(q) >= 8 {
                    assert(inverse_of(q) is None);
                    assert(synset_rel(m, q)@ =~= synset_rel(o, q)@ + reverse_links_gained(start, map, (i, j), q));
                }
            }
            assert forall|q: SenseRelField| #[trigger] synset_sense_rel(f, q)@ == synset_sense_rel(o, q)@ + sense_links_gained(sl, start, map, (i, j), q) by {
                let w = sense_writer(q);
                lemma_sense_contrib_shape(link_edges(sl, w.1), mid, start, map, (i, j), q, w.2, w.3);
                assert(synset_sense_rel(m, q) == synset_sense_rel(o, q));
            }
        }
        if store_in_key_order(start) {
            lemma_same_shape_keeps_key_order(start, synsets@);
        }
    }
}


// ---------------------------------------------------------------------------------------------
// What the inference guarantees.
// ---------------------------------------------------------------------------------------------

proof fn lemma_contains_concat<A>(a: Seq<A>, b: Seq<A>, e: A)
    ensures
        a.contains(e) ==> (a + b).contains(e),
        b.contains(e) ==> (a + b).contains(e),
{
    if a.contains(e) {
        let w = choose|k: int| 0 <= k < a.len() && a[k] == e;
        assert((a + b)[w] == e);
    }
    if b.contains(e) {
        let w = choose|k: int| 0 <= k < b.len() && b[k] == e;
        assert((a + b)[a.len() + w] == e);
    }
}

proof fn lemma_locate_in_store(store: Seq<(String, Synsets)>, map: Seq<(SynsetId, String)>, id: Seq<char>)
    requires
        locate(store, map, id) is Some,
    ensures
        in_store(store, locate(store, map, id).unwrap().0, locate(store, map, id).unwrap().1),
{
    let a = key_pos(map, id)->0;
    lemma_key_pos_some(map, id);
    lemma_key_pos_some(store, map[a].1@);
    let i = key_pos(store, map[a].1@)->0;
    lemma_key_pos_some(store[i].1.0@, id);
}

proof fn lemma_file_edges_has(ss: Seq<(SynsetId, Synset)>, r: SynsetRel, j: int, x: int)
    requires
        0 <= j < ss.len(),
        0 <= x < synset_rel(ss[j].1, r)@.len(),
    ensures
        file_edges(ss, r).contains((ss[j].1.id->0, synset_rel(ss[j].1, r)@[x])),
    decreases ss.len(),
{
    let rest = ss.drop_last();
    let e = (ss[j].1.id->0, synset_rel(ss[j].1, r)@[x]);
    if j == ss.len() - 1 {
        assert(synset_edges(ss.last().1, r)[x] == e);
    } else {
        assert(rest[j] == ss[j]);
        lemma_file_edges_has(rest, r, j, x);
    }
    lemma_contains_concat(file_edges(rest, r), synset_edges(ss.last().1, r), e);
}

proof fn lemma_store_edges_has(store: Seq<(String, Synsets)>, r: SynsetRel, i: int, j: int, x: int)
    requires
        in_store(store, i, j),
        0 <= x < synset_rel(syn_at(store, i, j), r)@.len(),
    ensures
        store_edges(store, r).contains((syn_at(store, i, j).id->0, synset_rel(syn_at(store, i, j), r)@[x])),
    decreases store.len(),
{
    let rest = store.drop_last();
    let e = (syn_at(store, i, j).id->0, synset_rel(syn_at(store, i, j), r)@[x]);
    if i == store.len() - 1 {
        lemma_file_edges_has(store.last().1.0@, r, j, x);
    } else {
        assert(rest[i] == store[i]);
        lemma_store_edges_has(rest, r, i, j, x);
    }
    lemma_contains_concat(store_edges(rest, r), file_edges(store.last().1.0@, r), e);
}

proof fn lemma_reverse_contrib_has(
    edges: Seq<(SynsetId, SynsetId)>,
    store: Seq<(String, Synsets)>,
    map: Seq<(SynsetId, String)>,
    loc: (int, int),
    e: (SynsetId, SynsetId),
)
    requires
        edges.contains(e),
        locate(store, map, e.1@) == Some(loc),
    ensures
        reverse_contrib(edges, store, map, loc).contains(e.0),
    decreases edges.len(),
{
    let rest = edges.drop_last();
    let tail = if locate(store, map, edges.last().1@) == Some(loc) {
        seq![edges.last().0]
    } else {
        seq![]
    };
    if edges.last() == e {
        assert(tail[0] == e.0);
    } else {
        let w = choose|k: int| 0 <= k < edges.len() && edges[k] == e;
        assert(rest[w] == e);
        lemma_reverse_contrib_has(rest, store, map, loc, e);
    }
    lemma_contains_concat(reverse_contrib(rest, store, map, loc), tail, e.0);
}

/// Law of reverse links: once the links are added, a synset that names another synset of the
/// store through a mirrored relation (hypernym, instance hypernym, meronym, cause,
/// exemplification, entailment) is named back by that synset in the mirroring field
/// (hyponym, instance hyponym, holonym, is caused by, is exemplified by, is entailed by).
pub proof fn law_reverse_link_recorded(
    before: Seq<(String, Synsets)>,
    after: Seq<(String, Synsets)>,
    map: Seq<(SynsetId, String)>,
    sl: Seq<(String, Sense)>,
    i: int,
    j: int,
    q: SynsetRel,
    x: int,
)
    requires
        links_added(before, after, map, sl),
        in_store(before, i, j),
        inverse_of(q) is Some,
        0 <= x < synset_rel(syn_at(before, i, j), inverse_of(q)->0)@.len(),
        locate(before, map, synset_rel(syn_at(before, i, j), inverse_of(q)->0)@[x]@) is Some,
    ensures
        ({
            let target = locate(before, map, synset_rel(syn_at(before, i, j), inverse_of(q)->0)@[x]@)->0;
            &&& in_store(after, target.0, target.1)
            &&& synset_rel(syn_at(after, target.0, target.1), q)@.contains(syn_at(before, i, j).id->0)
        }),
{
    let src = inverse_of(q)->0;
    let t = synset_rel(syn_at(before, i, j), src)@[x];
    let loc = locate(before, map, t@)->0;
    lemma_locate_in_store(before, map, t@);
    lemma_store_edges_has(before, src, i, j, x);
    lemma_reverse_contrib_has(store_edges(before, src), before, map, loc, (syn_at(before, i, j).id->0, t));
    let o = syn_at(before, loc.0, loc.1);
    let f = syn_at(after, loc.0, loc.1);
    assert(synset_rel(f, q)@ == synset_rel(o, q)@ + reverse_links_gained(before, map, loc, q));
    lemma_contains_concat(synset_rel(o, q)@, reverse_links_gained(before, map, loc, q), syn_at(before, i, j).id->0);
}

/// The sources of those `edges` that name `id` as their target, in order: one copy per naming.
pub open spec fn incoming(edges: Seq<(SynsetId, SynsetId)>, id: Seq<char>) -> Seq<SynsetId>
    decreases edges.len(),
{
    if edges.len() == 0 {
        seq![]
    } else {
        incoming(edges.drop_last(), id) + (if edges.last().1@ == id {
            seq![edges.last().0]
        } else {
            seq![]
        })
    }
}

/// The sources of those `edges` that name `id`, as a filter of the edges.
pub proof fn lemma_incoming_filter(edges: Seq<(SynsetId, SynsetId)>, id: Seq<char>)
    ensures
        incoming(edges, id) == edges.filter(|e: (SynsetId, SynsetId)| e.1@ == id).map_values(|e: (SynsetId, SynsetId)| e.0),
    decreases edges.len(),
{
    reveal(Seq::filter);
    let pred = |e: (SynsetId, SynsetId)| e.1@ == id;
    let src = |e: (SynsetId, SynsetId)| e.0;
    if edges.len() > 0 {
        lemma_incoming_filter(edges.drop_last(), id);
        let rest = edges.drop_last().filter(pred);
        if pred(edges.last()) {
            assert(rest.push(edges.last()).map_values(src) =~= rest.map_values(src) + seq![edges.last().0]);
        } else {
            assert(incoming(edges, id) =~= incoming(edges.drop_last(), id));
        }
    }
}

proof fn lemma_locate_key(store: Seq<(String, Synsets)>, map: Seq<(SynsetId, String)>, id: Seq<char>)
    requires
        locate(store, map, id) is Some,
    ensures
        ({
            let at = locate(store, map, id)->0;
            store[at.0].1.0@[at.1].0@ == id
        }),
{
    let a = key_pos(map, id)->0;
    lemma_key_pos_some(map, id);
    lemma_key_pos_some(store, map[a].1@);
    let i = key_pos(store, map[a].1@)->0;
    lemma_key_pos_some(store[i].1.0@, id);
}

proof fn lemma_reverse_contrib_incoming(
    edges: Seq<(SynsetId, SynsetId)>,
    store: Seq<(String, Synsets)>,
    map: Seq<(SynsetId, String)>,
    loc: (int, int),
)
    requires
        in_store(store, loc.0, loc.1),
    ensures
        reverse_contrib(edges, store, map, loc) == if locate(store, map, store[loc.0].1.0@[loc.1].0@) == Some(loc) {
            incoming(edges, store[loc.0].1.0@[loc.1].0@)
        } else {
            seq![]
        },
    decreases edges.len(),
{
    let key = store[loc.0].1.0@[loc.1].0@;
    if edges.len() > 0 {
        let e = edges.last();
        lemma_reverse_contrib_incoming(edges.drop_last(), store, map, loc);
        if locate(store, map, e.1@) == Some(loc) {
            lemma_locate_key(store, map, e.1@);
        }
        if locate(store, map, key) == Some(loc) {
            assert(reverse_contrib(edges, store, map, loc) =~= incoming(edges, key));
        } else {
            assert(reverse_contrib(edges, store, map, loc) =~= seq![]);
        }
    }
}

/// Law of reverse links, exactly: once the links are added, the mirroring field of a synset
/// that the file map places where it is stored holds what it held before, followed by the
/// identifier of every synset that names it through the mirrored relation, one copy per
/// naming; as a multiset, the old field plus those sources. A synset that the file map does
/// not place where it is stored gains nothing there.
pub proof fn law_reverse_links_exact(
    before: Seq<(String, Synsets)>,
    after: Seq<(String, Synsets)>,
    map: Seq<(SynsetId, String)>,
    sl: Seq<(String, Sense)>,
    i: int,
    j: int,
    q: SynsetRel,
)
    requires
        links_added(before, after, map, sl),
        in_store(before, i, j),
        inverse_of(q) is Some,
    ensures
        ({
            let key = before[i].1.0@[j].0@;
            let old_field = synset_rel(syn_at(before, i, j), q)@;
            let new_field = synset_rel(syn_at(after, i, j), q)@;
            let sources = incoming(store_edges(before, inverse_of(q)->0), key);
            &&& sources == store_edges(before, inverse_of(q)->0).filter(|e: (SynsetId, SynsetId)| e.1@ == key)
                .map_values(|e: (SynsetId, SynsetId)| e.0)
            &&& locate(before, map, key) == Some((i, j)) ==> new_field == old_field + sources
                && new_field.to_multiset() == old_field.to_multiset().add(sources.to_multiset())
            &&& locate(before, map, key) != Some((i, j)) ==> new_field == old_field
        }),
{
    let key = before[i].1.0@[j].0@;
    let src = inverse_of(q)->0;
    lemma_incoming_filter(store_edges(before, src), key);
    let old_field = synset_rel(syn_at(before, i, j), q)@;
    let new_field = synset_rel(syn_at(after, i, j), q)@;
    lemma_reverse_contrib_incoming(store_edges(before, src), before, map, (i, j));
    assert(new_field == old_field + reverse_links_gained(before, map, (i, j), q));
    let sources = incoming(store_edges(before, src), key);
    if locate(before, map, key) == Some((i, j)) {
        vstd::seq_lib::lemma_multiset_commutative(old_field, sources);
    } else {
        assert(new_field =~= old_field);
    }
}

/// What field `q` of the synset with identifier `id` gains from the sense links `edges`, in
/// order: the forward relation of each link that starts in it when `q` is the forward field
/// `fwd`, and the backward relation of each link that ends in it when `q` is the backward
/// field `inv`.
pub open spec fn sense_gains(
    edges: Seq<(SynsetId, SynsetId, String, String)>,
    id: Seq<char>,
    q: SenseRelField,
    fwd: SenseRelField,
    inv: SenseRelField,
) -> Seq<SenseRelation>
    decreases edges.len(),
{
    if edges.len() == 0 {
        seq![]
    } else {
        let e = edges.last();
        sense_gains(edges.drop_last(), id, q, fwd, inv) + (if q == fwd && e.0@ == id {
            seq![forward_relation(e)]
        } else {
            seq![]
        }) + (if q == inv && e.1@ == id {
            seq![backward_relation(e)]
        } else {
            seq![]
        })
    }
}

proof fn lemma_sense_contrib_gains(
    edges: Seq<(SynsetId, SynsetId, String, String)>,
    store: Seq<(String, Synsets)>,
    map: Seq<(SynsetId, String)>,
    loc: (int, int),
    q: SenseRelField,
    fwd: SenseRelField,
    inv: SenseRelField,
)
    requires
        in_store(store, loc.0, loc.1),
    ensures
        sense_contrib(edges, store, map, loc, q, fwd, inv) == if locate(store, map, store[loc.0].1.0@[loc.1].0@) == Some(loc) {
            sense_gains(edges, store[loc.0].1.0@[loc.1].0@, q, fwd, inv)
        } else {
            seq![]
        },
    decreases edges.len(),
{
    let key = store[loc.0].1.0@[loc.1].0@;
    if edges.len() > 0 {
        let e = edges.last();
        lemma_sense_contrib_gains(edges.drop_last(), store, map, loc, q, fwd, inv);
        if locate(store, map, e.0@) == Some(loc) {
            lemma_locate_key(store, map, e.0@);
        }
        if locate(store, map, e.1@) == Some(loc) {
            lemma_locate_key(store, map, e.1@);
        }
        if locate(store, map, key) == Some(loc) {
            assert(sense_contrib(edges, store, map, loc, q, fwd, inv) =~= sense_gains(edges, key, q, fwd, inv));
        } else {
            assert(sense_contrib(edges, store, map, loc, q, fwd, inv) =~= seq![]);
        }
    }
}

/// Law of sense links, exactly: once the links are added, sense-relation field `q` of a
/// synset that the file map places where it is stored holds what it held before, followed by
/// one relation per sense link that concerns it: for a link from a sense of lemma `l` in this
/// synset to a known sense of lemma `l2` in synset `Y`, the forward field gains
/// `{Y, l, l2}`; for a link from a sense of lemma `l` in synset `X` to a sense of lemma `l2`
/// in this synset, the backward field gains `{X, l2, l}`. As a multiset, the old field plus
/// those relations. A synset that the file map does not place where it is stored gains nothing.
pub proof fn law_sense_links_exact(
    before: Seq<(String, Synsets)>,
    after: Seq<(String, Synsets)>,
    map: Seq<(SynsetId, String)>,
    sl: Seq<(String, Sense)>,
    i: int,
    j: int,
    q: SenseRelField,
)
    requires
        links_added(before, after, map, sl),
        in_store(before, i, j),
    ensures
        ({
            let key = before[i].1.0@[j].0@;
            let w = sense_writer(q);
            let old_field = synset_sense_rel(syn_at(before, i, j), q)@;
            let new_field = synset_sense_rel(syn_at(after, i, j), q)@;
            let gains = sense_gains(link_edges(sl, w.1), key, q, w.2, w.3);
            &&& locate(before, map, key) == Some((i, j)) ==> new_field == old_field + gains
                && new_field.to_multiset() == old_field.to_multiset().add(gains.to_multiset())
            &&& locate(before, map, key) != Some((i, j)) ==> new_field == old_field
        }),
{
    let key = before[i].1.0@[j].0@;
    let w = sense_writer(q);
    let old_field = synset_sense_rel(syn_at(before, i, j), q)@;
    let new_field = synset_sense_rel(syn_at(after, i, j), q)@;
    lemma_sense_contrib_gains(link_edges(sl, w.1), before, map, (i, j), q, w.2, w.3);
    assert(new_field == old_field + sense_links_gained(sl, before, map, (i, j), q));
    let gains = sense_gains(link_edges(sl, w.1), key, q, w.2, w.3);
    if locate(before, map, key) == Some((i, j)) {
        vstd::seq_lib::lemma_multiset_commutative(old_field, gains);
    } else {
        assert(new_field =~= old_field);
    }
}

/// The forward and backward synset fields in which the links of sense field `f` are recorded.
pub open spec fn sense_link_fields(f: SenseLinkField) -> (SenseRelField, SenseRelField) {
    match f {
        SenseLinkField::Antonym => (SenseRelField::Antonym, SenseRelField::Antonym),
        SenseLinkField::Participle => (SenseRelField::Participle, SenseRelField::IsParticipleOf),
        SenseLinkField::Pertainym => (SenseRelField::Pertainym, SenseRelField::IsPertainymOf),
        SenseLinkField::Derivation => (SenseRelField::Derivation, SenseRelField::Derivation),
        SenseLinkField::Exemplifies => (SenseRelField::ExemplifiesSense, SenseRelField::IsExemplifiedBySense),
        SenseLinkField::Agent => (SenseRelField::Agent, SenseRelField::IsAgentOf),
        SenseLinkField::Material => (SenseRelField::Material, SenseRelField::IsMaterialOf),
        SenseLinkField::Event => (SenseRelField::Event, SenseRelField::IsEventOf),
        SenseLinkField::Instrument => (SenseRelField::Instrument, SenseRelField::IsInstrumentOf),
        SenseLinkField::Location => (SenseRelField::Location, SenseRelField::IsLocationOf),
        SenseLinkField::ByMeansOf => (SenseRelField::ByMeansOf, SenseRelField::IsByMeansOf),
        SenseLinkField::Undergoer => (SenseRelField::Undergoer, SenseRelField::IsUndergoerOf),
        SenseLinkField::Property => (SenseRelField::Property, SenseRelField::IsPropertyOf),
        SenseLinkField::Result => (SenseRelField::Result, SenseRelField::IsResultOf),
        SenseLinkField::State => (SenseRelField::State, SenseRelField::IsStateOf),
        SenseLinkField::Uses => (SenseRelField::Uses, SenseRelField::IsUsedBy),
        SenseLinkField::Destination => (SenseRelField::Destination, SenseRelField::IsDestinationOf),
        SenseLinkField::BodyPart => (SenseRelField::BodyPart, SenseRelField::IsBodyPartOf),
        SenseLinkField::Vehicle => (SenseRelField::Vehicle, SenseRelField::IsVehicleOf),
    }
}

proof fn lemma_target_edges_has(
    sl: Seq<(String, Sense)>,
    lemma: String,
    s: Sense,
    ts: Seq<SenseId>,
    x: int,
)
    requires
        0 <= x < ts.len(),
        sense_lookup(sl, ts[x]@) is Some,
    ensures
        target_edges(sl, lemma, s, ts).contains(
            (s.synset, sense_lookup(sl, ts[x]@).unwrap().1, lemma, sense_lookup(sl, ts[x]@).unwrap().0),
        ),
    decreases ts.len(),
{
    let rest = ts.drop_last();
    let found = sense_lookup(sl, ts[x]@)->0;
    let e = (s.synset, found.1, lemma, found.0);
    let tail = match sense_lookup(sl, ts.last()@) {
        Some(fd) => seq![(s.synset, fd.1, lemma, fd.0)],
        None => seq![],
    };
    if x == ts.len() - 1 {
        assert(tail[0] == e);
    } else {
        assert(rest[x] == ts[x]);
        lemma_target_edges_has(sl, lemma, s, rest, x);
    }
    lemma_contains_concat(target_edges(sl, lemma, s, rest), tail, e);
}

proof fn lemma_link_edges_of_has(
    sl: Seq<(String, Sense)>,
    ps: Seq<(String, Sense)>,
    f: SenseLinkField,
    p: int,
    x: int,
)
    requires
        0 <= p < ps.len(),
        0 <= x < sense_link(ps[p].1, f)@.len(),
        sense_lookup(sl, sense_link(ps[p].1, f)@[x]@) is Some,
    ensures
        link_edges_of(sl, ps, f).contains(
            (
                ps[p].1.synset,
                sense_lookup(sl, sense_link(ps[p].1, f)@[x]@).unwrap().1,
                ps[p].0,
                sense_lookup(sl, sense_link(ps[p].1, f)@[x]@).unwrap().0,
            ),
        ),
    decreases ps.len(),
{
    let rest = ps.drop_last();
    let found = sense_lookup(sl, sense_link(ps[p].1, f)@[x]@)->0;
    let e = (ps[p].1.synset, found.1, ps[p].0, found.0);
    if p == ps.len() - 1 {
        lemma_target_edges_has(sl, ps.last().0, ps.last().1, sense_link(ps.last().1, f)@, x);
    } else {
        assert(rest[p] == ps[p]);
        lemma_link_edges_of_has(sl, rest, f, p, x);
    }
    lemma_contains_concat(
        link_edges_of(sl, rest, f),
        target_edges(sl, ps.last().0, ps.last().1, sense_link(ps.last().1, f)@),
        e,
    );
}

proof fn lemma_sense_contrib_has(
    edges: Seq<(SynsetId, SynsetId, String, String)>,
    store: Seq<(String, Synsets)>,
    map: Seq<(SynsetId, String)>,
    loc: (int, int),
    q: SenseRelField,
    fwd: SenseRelField,
    inv: SenseRelField,
    e: (SynsetId, SynsetId, String, String),
)
    requires
        edges.contains(e),
    ensures
        q == fwd && locate(store, map, e.0@) == Some(loc) ==> sense_contrib(edges, store, map, loc, q, fwd, inv).contains(forward_relation(e)),
        q == inv && locate(store, map, e.1@) == Some(loc) ==> sense_contrib(edges, store, map, loc, q, fwd, inv).contains(backward_relation(e)),
    decreases edges.len(),
{
    let rest = edges.drop_last();
    let l = edges.last();
    let a = sense_contrib(rest, store, map, loc, q, fwd, inv);
    let b = if q == fwd && locate(store, map, l.0@) == Some(loc) {
        seq![forward_relation(l)]
    } else {
        seq![]
    };
    let c = if q == inv && locate(store, map, l.1@) == Some(loc) {
        seq![backward_relation(l)]
    } else {
        seq![]
    };
    assert(sense_contrib(edges, store, map, loc, q, fwd, inv) == a + b + c);
    if l == e {
        if q == fwd && locate(store, map, e.0@) == Some(loc) {
            assert(b[0] == forward_relation(e));
        }
        if q == inv && locate(store, map, e.1@) == Some(loc) {
            assert(c[0] == backward_relation(e));
        }
    } else {
        let w = choose|k: int| 0 <= k < edges.len() && edges[k] == e;
        assert(rest[w] == e);
        lemma_sense_contrib_has(rest, store, map, loc, q, fwd, inv, e);
    }
    lemma_contains_concat(a, b, forward_relation(e));
    lemma_contains_concat(a + b, c, forward_relation(e));
    lemma_contains_concat(a, b, backward_relation(e));
    lemma_contains_concat(a + b, c, backward_relation(e));
}

/// Law of sense links: once the links are added, a link from a sense to a known sense (an
/// antonym, a participle, an agent, ...) is recorded on the synset of the source sense, with
/// the target synset and both lemmas, and mirrored on the synset of the target sense in the
/// inverse field (or the same field, for the symmetric antonym and derivation).
pub proof fn law_sense_link_recorded(
    before: Seq<(String, Synsets)>,
    after: Seq<(String, Synsets)>,
    map: Seq<(SynsetId, String)>,
    sl: Seq<(String, Sense)>,
    p: int,
    f: SenseLinkField,
    x: int,
)
    requires
        links_added(before, after, map, sl),
        0 <= p < sl.len(),
        0 <= x < sense_link(sl[p].1, f)@.len(),
        sense_lookup(sl, sense_link(sl[p].1, f)@[x]@) is Some,
    ensures
        ({
            let found = sense_lookup(sl, sense_link(sl[p].1, f)@[x]@)->0;
            let link = (sl[p].1.synset, found.1, sl[p].0, found.0);
            let (fwd, inv) = sense_link_fields(f);
            &&& locate(before, map, link.0@) matches Some(ls) ==> {
                &&& in_store(after, ls.0, ls.1)
                &&& synset_sense_rel(syn_at(after, ls.0, ls.1), fwd)@.contains(
                    SenseRelation { target_synset: found.1, source_lemma: sl[p].0, target_lemma: found.0 },
                )
            }
            &&& locate(before, map, link.1@) matches Some(lt) ==> {
                &&& in_store(after, lt.0, lt.1)
                &&& synset_sense_rel(syn_at(after, lt.0, lt.1), inv)@.contains(
                    SenseRelation { target_synset: sl[p].1.synset, source_lemma: found.0, target_lemma: sl[p].0 },
                )
            }
        }),
{
    let found = sense_lookup(sl, sense_link(sl[p].1, f)@[x]@)->0;
    let link = (sl[p].1.synset, found.1, sl[p].0, found.0);
    let (fwd, inv) = sense_link_fields(f);
    assert(sense_writer(fwd) == (sense_writer(fwd).0, f, fwd, inv));
    assert(sense_writer(inv) == (sense_writer(inv).0, f, fwd, inv));
    let edges = link_edges(sl, f);
    lemma_link_edges_of_has(sl, sl, f, p, x);
    if let Some(ls) = locate(before, map, link.0@) {
        lemma_locate_in_store(before, map, link.0@);
        lemma_sense_contrib_has(edges, before, map, ls, fwd, fwd, inv, link);
        let o = syn_at(before, ls.0, ls.1);
        let g = syn_at(after, ls.0, ls.1);
        assert(synset_sense_rel(g, fwd)@ == synset_sense_rel(o, fwd)@ + sense_links_gained(sl, before, map, ls, fwd));
        lemma_contains_concat(synset_sense_rel(o, fwd)@, sense_links_gained(sl, before, map, ls, fwd), forward_relation(link));
    }
    if let Some(lt) = locate(before, map, link.1@) {
        lemma_locate_in_store(before, map, link.1@);
        lemma_sense_contrib_has(edges, before, map, lt, inv, fwd, inv, link);
        let o = syn_at(before, lt.0, lt.1);
        let g = syn_at(after, lt.0, lt.1);
        assert(synset_sense_rel(g, inv)@ == synset_sense_rel(o, inv)@ + sense_links_gained(sl, before, map, lt, inv));
        lemma_contains_concat(synset_sense_rel(o, inv)@, sense_links_gained(sl, before, map, lt, inv), backward_relation(link));
    }
}

} // verus!
