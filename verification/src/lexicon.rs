//! The lexicon: the index from lemmas, ILIs and synset identifiers to synsets with their
//! members resolved.

use vstd::prelude::*;
use vstd::hash_map::StringHashMap;
use crate::ids::SynsetId;
use crate::model::{Entries, MemberSynset, Synset, Synsets, member_synset_same};
use crate::links::{in_store, syn_at};
use crate::members::{carries_synset, member_entries, members_for, members_resolvable, members_check, resolve_members, EntriesIndex};
use crate::text::{lex_lt, lowercase, sorted_distinct, starts_with, strictly_sorted, texts, to_lowercase};

verus! {

// ---------------------------------------------------------------------------------------------
// What the lexicon is built from.
// ---------------------------------------------------------------------------------------------

/// The synsets of one file, in order.
pub open spec fn file_synsets(ss: Seq<(SynsetId, Synset)>) -> Seq<Synset> {
    ss.map_values(|p: (SynsetId, Synset)| p.1)
}

/// Every synset of the store, file after file.
pub open spec fn all_synsets(store: Seq<(String, Synsets)>) -> Seq<Synset>
    decreases store.len(),
{
    if store.len() == 0 {
        seq![]
    } else {
        all_synsets(store.drop_last()) + file_synsets(store.last().1.0@)
    }
}

/// `id` once for each member of `ms` that spells `lemma`.
pub open spec fn occurrences(ms: Seq<String>, lemma: Seq<char>, id: SynsetId) -> Seq<SynsetId>
    decreases ms.len(),
{
    if ms.len() == 0 {
        seq![]
    } else {
        occurrences(ms.drop_last(), lemma, id) + if ms.last()@ == lemma {
            seq![id]
        } else {
            seq![]
        }
    }
}

/// The synsets that have `lemma` as a member, in order, once per occurrence.
pub open spec fn lemma_synsets(all: Seq<Synset>, lemma: Seq<char>) -> Seq<SynsetId>
    decreases all.len(),
{
    if all.len() == 0 {
        seq![]
    } else {
        lemma_synsets(all.drop_last(), lemma) + occurrences(all.last().members@, lemma, all.last().id->0)
    }
}

/// The last synset that is linked to the ILI `ili`.
pub open spec fn ili_owner(all: Seq<Synset>, ili: Seq<char>) -> Option<SynsetId>
    decreases all.len(),
{
    if all.len() == 0 {
        None
    } else if all.last().ili is Some && (all.last().ili->0)@ == ili {
        Some(all.last().id->0)
    } else {
        ili_owner(all.drop_last(), ili)
    }
}

/// The last synset with identifier `id`.
pub open spec fn last_with_id(all: Seq<Synset>, id: Seq<char>) -> Option<Synset>
    decreases all.len(),
{
    if all.len() == 0 {
        None
    } else if (all.last().id->0)@ == id {
        Some(all.last())
    } else {
        last_with_id(all.drop_last(), id)
    }
}

/// Each value of `s` is spelled once.
pub open spec fn no_repeats(s: Seq<Seq<char>>) -> bool {
    forall|a: int, b: int| 0 <= a < b < s.len() ==> #[trigger] s[a] != #[trigger] s[b]
}

/// Whether `s` begins with `p`.
pub open spec fn has_prefix(s: Seq<char>, p: Seq<char>) -> bool {
    p.len() <= s.len() && s.subrange(0, p.len() as int) == p
}

// ---------------------------------------------------------------------------------------------
// The lexicon.
// ---------------------------------------------------------------------------------------------


proof fn lemma_push_keys(ks: Seq<Seq<char>>, x: Seq<char>)
    requires
        no_repeats(ks),
        !ks.contains(x),
    ensures
        no_repeats(ks.push(x)),
        forall|l: Seq<char>| #[trigger] ks.push(x).contains(l) <==> ks.contains(l) || l == x,
{
    let t = ks.push(x);
    assert forall|a: int, b: int| 0 <= a < b < t.len() implies #[trigger] t[a] != #[trigger] t[b] by {
        if b == ks.len() {
            assert(t[a] == ks[a]);
        } else {
            assert(t[a] == ks[a] && t[b] == ks[b]);
        }
    }
    assert forall|l: Seq<char>| #[trigger] t.contains(l) <==> ks.contains(l) || l == x by {
        if t.contains(l) {
            let w = choose|w: int| 0 <= w < t.len() && t[w] == l;
            if w < ks.len() {
                assert(ks[w] == l);
            }
        }
        if ks.contains(l) {
            let w = choose|w: int| 0 <= w < ks.len() && ks[w] == l;
            assert(t[w] == l);
        }
        if l == x {
            assert(t[ks.len() as int] == l);
        }
    }
}

/// `m` is the synset `s` with its members resolved against `entries`.
pub open spec fn resolved_from(m: MemberSynset, s: Synset, entries: Seq<(String, Entries)>) -> bool {
    &&& carries_synset(m, s)
    &&& members_for(m.members@, member_entries(s.members@, entries, s.id->0))
}

/// `l` is the lexicon of the synsets `all`: each lemma leads to the synsets it is a member of,
/// each ILI to the last synset linked to it, each identifier to the last synset that bears it
/// with its members resolved; the key lists hold each key of their index once.
pub open spec fn parts_of(l: LexiconParts, all: Seq<Synset>, entries: Seq<(String, Entries)>) -> bool {
    &&& forall|k: Seq<char>|
        #![trigger l.lemma_index().contains_key(k)]
        #![trigger lemma_synsets(all, k)]
        l.lemma_index().contains_key(k) <==> lemma_synsets(all, k).len() > 0
    &&& forall|k: Seq<char>| l.lemma_index().contains_key(k) ==> #[trigger] l.lemma_index()[k] == lemma_synsets(all, k)
    &&& no_repeats(l.lemma_keys())
    &&& forall|k: Seq<char>|
        #![trigger l.lemma_keys().contains(k)]
        #![trigger l.lemma_index().contains_key(k)]
        l.lemma_keys().contains(k) <==> l.lemma_index().contains_key(k)
    &&& forall|k: Seq<char>|
        #![trigger l.ili_index().contains_key(k)]
        #![trigger ili_owner(all, k)]
        l.ili_index().contains_key(k) <==> ili_owner(all, k) is Some
    &&& forall|k: Seq<char>| l.ili_index().contains_key(k) ==> #[trigger] l.ili_index()[k] == ili_owner(all, k)->0
    &&& no_repeats(l.ili_keys())
    &&& forall|k: Seq<char>|
        #![trigger l.ili_keys().contains(k)]
        #![trigger l.ili_index().contains_key(k)]
        l.ili_keys().contains(k) <==> l.ili_index().contains_key(k)
    &&& forall|k: Seq<char>|
        #![trigger l.synset_table().contains_key(k)]
        #![trigger last_with_id(all, k)]
        l.synset_table().contains_key(k) <==> last_with_id(all, k) is Some
    &&& forall|k: Seq<char>|
        l.synset_table().contains_key(k) ==> resolved_from(#[trigger] l.synset_table()[k], last_with_id(all, k)->0, entries)
    &&& no_repeats(l.synset_id_keys())
    &&& forall|k: Seq<char>|
        #![trigger l.synset_id_keys().contains(k)]
        #![trigger l.synset_table().contains_key(k)]
        l.synset_id_keys().contains(k) <==> l.synset_table().contains_key(k)
}

/// The indices of a lexicon as they are built up.
pub struct LexiconParts {
    entries: StringHashMap<Vec<SynsetId>>,
    lemmas: Vec<String>,
    synsets_by_ili: StringHashMap<SynsetId>,
    ilis: Vec<String>,
    synsets: StringHashMap<MemberSynset>,
    synset_ids: Vec<SynsetId>,
}

impl LexiconParts {
    /// Lemma to the synsets it is a member of.
    pub closed spec fn lemma_index(&self) -> Map<Seq<char>, Seq<SynsetId>> {
        self.entries@.map_values(|v: Vec<SynsetId>| v@)
    }

    /// The lemmas of the index, in the order they were first seen.
    pub closed spec fn lemma_keys(&self) -> Seq<Seq<char>> {
        self.lemmas@.map_values(|s: String| s@)
    }

    /// ILI to the synset linked to it.
    pub closed spec fn ili_index(&self) -> Map<Seq<char>, SynsetId> {
        self.synsets_by_ili@
    }

    /// The ILIs of the index, in the order they were first seen.
    pub closed spec fn ili_keys(&self) -> Seq<Seq<char>> {
        self.ilis@.map_values(|s: String| s@)
    }

    /// Synset identifier to the synset with its members.
    pub closed spec fn synset_table(&self) -> Map<Seq<char>, MemberSynset> {
        self.synsets@
    }

    /// The identifiers of the synsets of the table, in the order they were first seen.
    pub closed spec fn synset_id_list(&self) -> Seq<SynsetId> {
        self.synset_ids@
    }

    /// The identifiers of `synset_id_list`, spelled out.
    pub open spec fn synset_id_keys(&self) -> Seq<Seq<char>> {
        self.synset_id_list().map_values(|i: SynsetId| i@)
    }

    /// The lemmas whose lowercase form begins with the lowercase form of `prefix`, in key order.
    pub open spec fn lemmas_with_prefix(&self, prefix: Seq<char>) -> Seq<Seq<char>> {
        self.lemma_keys().filter(|k: Seq<char>| has_prefix(lowercase(k), lowercase(prefix)))
    }

    /// The synset identifiers that begin with `prefix`, in list order.
    pub open spec fn ids_with_prefix(&self, prefix: Seq<char>) -> Seq<Seq<char>> {
        self.synset_id_list().map_values(|k: SynsetId| k@).filter(|k: Seq<char>| has_prefix(k, prefix))
    }

    /// The ILIs that begin with `prefix`, in key order.
    pub open spec fn ilis_with_prefix(&self, prefix: Seq<char>) -> Seq<Seq<char>> {
        self.ili_keys().filter(|k: Seq<char>| has_prefix(k, prefix))
    }

    /// The identifier of the synset linked to the ILI `ili`.
    pub(crate) fn ili_synset(&self, ili: &str) -> (r: Option<&SynsetId>)
        ensures
            match r {
                Some(id) => self.ili_index().contains_key(ili@) && *id == self.ili_index()[ili@],
                None => !self.ili_index().contains_key(ili@),
            },
    {
        self.synsets_by_ili.get(ili)
    }

    /// An empty lexicon.
    pub(crate) fn new() -> (r: LexiconParts)
        ensures
            r.lemma_index() == Map::<Seq<char>, Seq<SynsetId>>::empty(),
            r.lemma_keys() == Seq::<Seq<char>>::empty(),
            r.ili_index() == Map::<Seq<char>, SynsetId>::empty(),
            r.ili_keys() == Seq::<Seq<char>>::empty(),
            r.synset_table() == Map::<Seq<char>, MemberSynset>::empty(),
            r.synset_id_list() == Seq::<SynsetId>::empty(),
    {
        let r = LexiconParts {
            entries: StringHashMap::new(),
            lemmas: Vec::new(),
            synsets_by_ili: StringHashMap::new(),
            ilis: Vec::new(),
            synsets: StringHashMap::new(),
            synset_ids: Vec::new(),
        };
        assert(r.lemma_index() =~= Map::<Seq<char>, Seq<SynsetId>>::empty());
        assert(r.lemma_keys() =~= Seq::<Seq<char>>::empty());
        assert(r.ili_keys() =~= Seq::<Seq<char>>::empty());
        r
    }

    /// Adds one synset to the indices and the table.
    fn add_synset(&mut self, s: Synset, entries: &Vec<(String, Entries)>, index: &EntriesIndex, Ghost(done): Ghost<Seq<Synset>>)
        requires
            parts_of(*old(self), done, entries@),
            members_resolvable(s, entries@),
            index.indexes(entries@),
        ensures
            parts_of(*final(self), done.push(s), entries@),
    {
        let ghost all = done.push(s);
        let ghost ents = entries@;
        proof {
            assert(all.drop_last() =~= done);
        }
        let id = match &s.id {
            Some(i) => i.clone(),
            None => {
                assert(false);
                return;
            },
        };
        proof {
            assert forall|l: Seq<char>| self.entries@.contains_key(l) implies (#[trigger] self.entries@[l])@ == lemma_synsets(done, l) + occurrences(s.members@.take(0), l, id) by {
                assert(self.lemma_index()[l] == lemma_synsets(done, l));
                assert(lemma_synsets(done, l) + occurrences(s.members@.take(0), l, id) =~= lemma_synsets(done, l));
            }
            assert forall|l: Seq<char>| #![trigger self.entries@.contains_key(l)] #![trigger lemma_synsets(done, l)]
                self.entries@.contains_key(l) <==> (lemma_synsets(done, l) + occurrences(s.members@.take(0), l, id)).len() > 0 by {
                assert(self.lemma_index().contains_key(l) == self.entries@.contains_key(l));
                assert(lemma_synsets(done, l) + occurrences(s.members@.take(0), l, id) =~= lemma_synsets(done, l));
            }
        }
        let mut k: usize = 0;
        while k < s.members.len()
            invariant
                all == done.push(s),
                ents == entries@,
                s.id == Some(id),
                k <= s.members.len(),
                parts_of(*old(self), done, ents),
                self.synsets_by_ili@ == old(self).synsets_by_ili@,
                self.ilis@ == old(self).ilis@,
                self.synsets@ == old(self).synsets@,
                self.synset_ids@ == old(self).synset_ids@,
                forall|l: Seq<char>|
                    #![trigger self.entries@.contains_key(l)]
                    #![trigger lemma_synsets(done, l)]
                    self.entries@.contains_key(l) <==> (lemma_synsets(done, l) + occurrences(s.members@.take(k as int), l, id)).len() > 0,
                forall|l: Seq<char>|
                    self.entries@.contains_key(l) ==> (#[trigger] self.entries@[l])@ == lemma_synsets(done, l) + occurrences(s.members@.take(k as int), l, id),
                no_repeats(self.lemma_keys()),
                forall|l: Seq<char>|
                    #![trigger self.lemma_keys().contains(l)]
                    #![trigger self.entries@.contains_key(l)]
                    self.lemma_keys().contains(l) <==> self.entries@.contains_key(l),
            decreases s.members.len() - k,
        {
            let m = &s.members[k];
            let ghost mk = s.members@[k as int];
            proof {
                assert(s.members@.take(k + 1).drop_last() =~= s.members@.take(k as int));
                assert(s.members@.take(k + 1).last() == mk);
            }
            let grown = match self.entries.get(m.as_str()) {
                Some(v) => {
                    let mut v2 = v.clone();
                    assert(v2@ =~= v@);
                    v2.push(id.clone());
                    Some(v2)
                },
                None => None,
            };
            let ghost keys_before = self.lemma_keys();
            match grown {
                Some(v2) => {
                    self.entries.insert(m.clone(), v2);
                },
                None => {
                    let mut v2: Vec<SynsetId> = Vec::new();
                    v2.push(id.clone());
                    self.entries.insert(m.clone(), v2);
                    self.lemmas.push(m.clone());
                    proof {
                        assert(self.lemma_keys() =~= keys_before.push(mk@));
                        assert(!keys_before.contains(mk@));
                        lemma_push_keys(keys_before, mk@);
                    }
                },
            }
            proof {
                assert forall|l: Seq<char>|
                    #![trigger self.entries@.contains_key(l)]
                    #![trigger lemma_synsets(done, l)]
                    self.entries@.contains_key(l) <==> (lemma_synsets(done, l) + occurrences(s.members@.take(k + 1), l, id)).len() > 0 by {
                    assert(occurrences(s.members@.take(k + 1), l, id) == occurrences(s.members@.take(k as int), l, id) + if mk@ == l {
                        seq![id]
                    } else {
                        seq![]
                    });
                }
                assert forall|l: Seq<char>|
                    self.entries@.contains_key(l) implies (#[trigger] self.entries@[l])@ == lemma_synsets(done, l) + occurrences(s.members@.take(k + 1), l, id) by {
                    assert(occurrences(s.members@.take(k + 1), l, id) == occurrences(s.members@.take(k as int), l, id) + if mk@ == l {
                        seq![id]
                    } else {
                        seq![]
                    });
                    if l == mk@ {
                        assert((lemma_synsets(done, l) + occurrences(s.members@.take(k as int), l, id)).push(id) =~= lemma_synsets(done, l) + occurrences(s.members@.take(k + 1), l, id));
                    } else {
                        assert(lemma_synsets(done, l) + occurrences(s.members@.take(k as int), l, id) =~= lemma_synsets(done, l) + occurrences(s.members@.take(k + 1), l, id));
                    }
                }
            }
            k += 1;
        }
        proof {
            assert(s.members@.take(s.members@.len() as int) =~= s.members@);
        }
        match &s.ili {
            Some(ili) => {
                let ghost keys_before = self.ili_keys();
                if !self.synsets_by_ili.contains_key(ili.as_str()) {
                    self.ilis.push(ili.as_str().to_owned());
                    proof {
                        assert(self.ili_keys() =~= keys_before.push(ili@));
                        lemma_push_keys(keys_before, ili@);
                    }
                }
                self.synsets_by_ili.insert(ili.as_str().to_owned(), id.clone());
            },
            None => {},
        }
        let key = id.to_string();
        let ghost ids_before = self.synset_id_keys();
        if !self.synsets.contains_key(key.as_str()) {
            self.synset_ids.push(id.clone());
            proof {
                assert(self.synset_id_keys() =~= ids_before.push(id@));
                lemma_push_keys(ids_before, id@);
            }
        }
        let member_synset = resolve_members(s, entries, Some(index));
        self.synsets.insert(key, member_synset);
        proof {
            assert forall|l: Seq<char>| self.lemma_index().contains_key(l) implies #[trigger] self.lemma_index()[l] == lemma_synsets(all, l) by {
                assert(lemma_synsets(all, l) == lemma_synsets(done, l) + occurrences(s.members@, l, id));
            }
            assert forall|l: Seq<char>| #![trigger self.lemma_index().contains_key(l)] #![trigger lemma_synsets(all, l)]
                self.lemma_index().contains_key(l) <==> lemma_synsets(all, l).len() > 0 by {
                assert(lemma_synsets(all, l) == lemma_synsets(done, l) + occurrences(s.members@, l, id));
            }
            assert forall|l: Seq<char>| #![trigger self.ili_index().contains_key(l)] #![trigger ili_owner(all, l)]
                self.ili_index().contains_key(l) <==> ili_owner(all, l) is Some by {
                assert(ili_owner(all, l) == if s.ili is Some && (s.ili->0)@ == l {
                    Some(id)
                } else {
                    ili_owner(done, l)
                });
            }
            assert forall|l: Seq<char>| self.ili_index().contains_key(l) implies #[trigger] self.ili_index()[l] == ili_owner(all, l)->0 by {
                assert(ili_owner(all, l) == if s.ili is Some && (s.ili->0)@ == l {
                    Some(id)
                } else {
                    ili_owner(done, l)
                });
            }
            assert forall|l: Seq<char>| #![trigger self.synset_table().contains_key(l)] #![trigger last_with_id(all, l)]
                self.synset_table().contains_key(l) <==> last_with_id(all, l) is Some by {
                assert(last_with_id(all, l) == if id@ == l {
                    Some(s)
                } else {
                    last_with_id(done, l)
                });
            }
            assert forall|l: Seq<char>| self.synset_table().contains_key(l) implies resolved_from(
                #[trigger] self.synset_table()[l],
                last_with_id(all, l)->0,
                ents,
            ) by {
                assert(last_with_id(all, l) == if id@ == l {
                    Some(s)
                } else {
                    last_with_id(done, l)
                });
            }
        }
    }

    /// The synsets that `lemma` is a member of.
    pub(crate) fn entry_by_lemma(&self, lemma: &str) -> (r: Vec<SynsetId>)
        ensures
            r@ == (if self.lemma_index().contains_key(lemma@) {
                self.lemma_index()[lemma@]
            } else {
                Seq::<SynsetId>::empty()
            }),
    {
        match self.entries.get(lemma) {
            Some(v) => {
                let r = v.clone();
                assert(r@ =~= v@);
                r
            },
            None => Vec::new(),
        }
    }

    /// The synset with identifier `synset_id`.
    pub(crate) fn synset_by_id(&self, synset_id: &SynsetId) -> (r: Option<MemberSynset>)
        ensures
            match r {
                Some(m) => self.synset_table().contains_key(synset_id@) && member_synset_same(
                    m,
                    self.synset_table()[synset_id@],
                ),
                None => !self.synset_table().contains_key(synset_id@),
            },
    {
        match self.synsets.get(synset_id.as_str()) {
            Some(m) => Some(m.clone()),
            None => None,
        }
    }

    /// The synset linked to the ILI `ili`, with its identifier.
    pub(crate) fn synset_by_ili(&self, ili: &str) -> (r: Option<(&SynsetId, MemberSynset)>)
        ensures
            match r {
                Some((id, m)) => {
                    &&& self.ili_index().contains_key(ili@)
                    &&& *id == self.ili_index()[ili@]
                    &&& self.synset_table().contains_key(id@)
                    &&& member_synset_same(m, self.synset_table()[id@])
                },
                None => !self.ili_index().contains_key(ili@) || !self.synset_table().contains_key(
                    self.ili_index()[ili@]@,
                ),
            },
    {
        match self.synsets_by_ili.get(ili) {
            Some(ssid) => match self.synset_by_id(ssid) {
                Some(synset) => Some((ssid, synset)),
                None => None,
            },
            None => None,
        }
    }

    /// The lemmas whose lowercase form begins with the lowercase form of `prefix`.
    pub(crate) fn lemma_by_prefix(&self, prefix: &str) -> (r: Vec<String>)
        ensures
            r@.map_values(|s: String| s@) == self.lemmas_with_prefix(prefix@),
    {
        let prefix = to_lowercase(prefix);
        let ghost pred = |k: Seq<char>| has_prefix(lowercase(k), prefix@);
        let ghost keys = self.lemma_keys();
        let mut out: Vec<String> = Vec::new();
        let mut i: usize = 0;
        while i < self.lemmas.len()
            invariant
                keys == self.lemma_keys(),
                pred == (|k: Seq<char>| has_prefix(lowercase(k), prefix@)),
                i <= self.lemmas.len(),
                out@.map_values(|s: String| s@) == keys.take(i as int).filter(pred),
            decreases self.lemmas.len() - i,
        {
            let k = &self.lemmas[i];
            let lk = to_lowercase(k.as_str());
            proof {
                assert(keys.take(i + 1).drop_last() =~= keys.take(i as int));
                assert(keys[i as int] == k@);
            }
            let ghost before = out@;
            if starts_with(lk.as_str(), prefix.as_str()) {
                out.push(k.clone());
                proof {
                    assert(out@.map_values(|s: String| s@) =~= before.map_values(|s: String| s@).push(k@));
                }
            }
            proof {
                assert(pred(keys.take(i + 1).last()) == has_prefix(lowercase(k@), prefix@));
                reveal(Seq::filter);
                let t = keys.take(i + 1);
                assert(t.drop_last() == keys.take(i as int));
                assert(t.filter(pred) == (if pred(t.last()) {
                    t.drop_last().filter(pred).push(t.last())
                } else {
                    t.drop_last().filter(pred)
                }));
                assert(out@.map_values(|s: String| s@) =~= keys.take(i + 1).filter(pred));
            }
            i += 1;
        }
        proof {
            assert(keys.take(self.lemmas.len() as int) =~= keys);
        }
        out
    }

    /// The identifiers of the synsets that begin with `prefix`.
    pub(crate) fn ssid_by_prefix(&self, prefix: &str) -> (r: Vec<String>)
        ensures
            r@.map_values(|s: String| s@) == self.ids_with_prefix(prefix@),
    {
        let ghost pred = |k: Seq<char>| has_prefix(k, prefix@);
        let ghost keys = self.synset_ids@.map_values(|k: SynsetId| k@);
        let mut out: Vec<String> = Vec::new();
        let mut i: usize = 0;
        while i < self.synset_ids.len()
            invariant
                keys == self.synset_ids@.map_values(|k: SynsetId| k@),
                pred == (|k: Seq<char>| has_prefix(k, prefix@)),
                i <= self.synset_ids.len(),
                out@.map_values(|s: String| s@) == keys.take(i as int).filter(pred),
            decreases self.synset_ids.len() - i,
        {
            let k = &self.synset_ids[i];
            proof {
                assert(keys.take(i + 1).drop_last() =~= keys.take(i as int));
                assert(keys[i as int] == k@);
            }
            let ghost before = out@;
            if starts_with(k.as_str(), prefix) {
                out.push(k.to_string());
                proof {
                    assert(out@.map_values(|s: String| s@) =~= before.map_values(|s: String| s@).push(k@));
                }
            }
            proof {
                assert(pred(keys.take(i + 1).last()) == has_prefix(k@, prefix@));
                reveal(Seq::filter);
                let t = keys.take(i + 1);
                assert(t.drop_last() == keys.take(i as int));
                assert(t.filter(pred) == (if pred(t.last()) {
                    t.drop_last().filter(pred).push(t.last())
                } else {
                    t.drop_last().filter(pred)
                }));
                assert(out@.map_values(|s: String| s@) =~= keys.take(i + 1).filter(pred));
            }
            i += 1;
        }
        proof {
            assert(keys.take(self.synset_ids.len() as int) =~= keys);
        }
        out
    }

    /// The ILIs of the index that begin with `prefix`.
    pub(crate) fn ili_by_prefix(&self, prefix: &str) -> (r: Vec<String>)
        ensures
            r@.map_values(|s: String| s@) == self.ilis_with_prefix(prefix@),
    {
        let ghost pred = |k: Seq<char>| has_prefix(k, prefix@);
        let ghost keys = self.ili_keys();
        let mut out: Vec<String> = Vec::new();
        let mut i: usize = 0;
        while i < self.ilis.len()
            invariant
                keys == self.ili_keys(),
                pred == (|k: Seq<char>| has_prefix(k, prefix@)),
                i <= self.ilis.len(),
                out@.map_values(|s: String| s@) == keys.take(i as int).filter(pred),
            decreases self.ilis.len() - i,
        {
            let k = &self.ilis[i];
            proof {
                assert(keys.take(i + 1).drop_last() =~= keys.take(i as int));
                assert(keys[i as int] == k@);
            }
            let ghost before = out@;
            if starts_with(k.as_str(), prefix) {
                out.push(k.clone());
                proof {
                    assert(out@.map_values(|s: String| s@) =~= before.map_values(|s: String| s@).push(k@));
                }
            }
            proof {
                assert(pred(keys.take(i + 1).last()) == has_prefix(k@, prefix@));
                reveal(Seq::filter);
                let t = keys.take(i + 1);
                assert(t.drop_last() == keys.take(i as int));
                assert(t.filter(pred) == (if pred(t.last()) {
                    t.drop_last().filter(pred).push(t.last())
                } else {
                    t.drop_last().filter(pred)
                }));
                assert(out@.map_values(|s: String| s@) =~= keys.take(i + 1).filter(pred));
            }
            i += 1;
        }
        proof {
            assert(keys.take(self.ilis.len() as int) =~= keys);
        }
        out
    }
}


/// The identifiers of the synsets that `lemma` is a member of, as text, once per occurrence.
pub open spec fn lemma_synset_texts(l: Lexicon, lemma: Seq<char>) -> Seq<Seq<char>> {
    if l.lemma_index().contains_key(lemma) {
        l.lemma_index()[lemma].map_values(|id: SynsetId| id@)
    } else {
        Seq::<Seq<char>>::empty()
    }
}

/// Every distinct synset that `lemma` is a member of, in identifier order, with its members
/// resolved: none for an unknown lemma.
pub fn resolve_lemma_synsets(lexicon: &Lexicon, lemma: &str) -> (r: Vec<MemberSynset>)
    ensures
        exists|keys: Seq<Seq<char>>|
            {
                &&& #[trigger] strictly_sorted(keys)
                &&& forall|s: Seq<char>|
                    #[trigger] keys.contains(s) <==> (lemma_synset_texts(*lexicon, lemma@).contains(s)
                        && lexicon.synset_table().contains_key(s))
                &&& r@.len() == keys.len()
                &&& forall|k: int|
                    0 <= k < keys.len() ==> member_synset_same(#[trigger] r@[k], lexicon.synset_table()[keys[k]])
            },
{
    let ids = lexicon.entry_by_lemma(lemma);
    let mut names: Vec<String> = Vec::new();
    let mut k: usize = 0;
    while k < ids.len()
        invariant
            k <= ids@.len(),
            ids@ == (if lexicon.lemma_index().contains_key(lemma@) {
                lexicon.lemma_index()[lemma@]
            } else {
                Seq::<SynsetId>::empty()
            }),
            texts(names@) == ids@.take(k as int).map_values(|id: SynsetId| id@),
        decreases ids@.len() - k,
    {
        let ghost before = names@;
        names.push(ids[k].to_string());
        assert(ids@.take(k + 1) =~= ids@.take(k as int).push(ids@[k as int]));
        assert(texts(names@) =~= texts(before).push(ids@[k as int]@));
        k += 1;
    }
    assert(ids@.take(ids@.len() as int) =~= ids@);
    assert(texts(names@) =~= lemma_synset_texts(*lexicon, lemma@));
    let sorted = sorted_distinct(&names);
    let ghost st = texts(sorted@);
    let mut r: Vec<MemberSynset> = Vec::new();
    let ghost mut keys: Seq<Seq<char>> = seq![];
    let mut j: usize = 0;
    while j < sorted.len()
        invariant
            j <= sorted@.len(),
            st == texts(sorted@),
            strictly_sorted(st),
            strictly_sorted(keys),
            forall|a: int, b: int| 0 <= a < keys.len() && j <= b < st.len() ==> lex_lt(#[trigger] keys[a], #[trigger] st[b]),
            forall|s: Seq<char>|
                #[trigger] keys.contains(s) <==> (st.take(j as int).contains(s) && lexicon.synset_table().contains_key(s)),
            r@.len() == keys.len(),
            forall|a: int| 0 <= a < keys.len() ==> member_synset_same(#[trigger] r@[a], lexicon.synset_table()[keys[a]]),
        decreases sorted@.len() - j,
    {
        let id = SynsetId::new(sorted[j].as_str());
        let ghost old_keys = keys;
        let ghost old_r = r@;
        let ghost t0 = st.take(j as int);
        let ghost t1 = st.take(j + 1);
        assert(st.take(j + 1) =~= st.take(j as int).push(st[j as int]));
        match lexicon.synset_by_id(&id) {
            Some(m) => {
                r.push(m);
                proof {
                    keys = old_keys.push(id@);
                    assert forall|s: Seq<char>|
                        #[trigger] keys.contains(s) <==> (st.take(j + 1).contains(s) && lexicon.synset_table().contains_key(s)) by {
                        if s == id@ {
                            assert(t1[j as int] == s);
                            assert(keys[old_keys.len() as int] == s);
                        }
                        if keys.contains(s) && s != id@ {
                            let w = choose|w: int| 0 <= w < keys.len() && keys[w] == s;
                            assert(old_keys[w] == s);
                            assert(old_keys.contains(s));
                            let v = choose|v: int| 0 <= v < t0.len() && t0[v] == s;
                            assert(t1[v] == s);
                        }
                        if st.take(j + 1).contains(s) && lexicon.synset_table().contains_key(s) {
                            let v = choose|v: int| 0 <= v < t1.len() && t1[v] == s;
                            if v < j {
                                assert(t0[v] == s);
                                assert(old_keys.contains(s));
                                let w = choose|w: int| 0 <= w < old_keys.len() && old_keys[w] == s;
                                assert(keys[w] == s);
                            } else {
                                assert(keys[old_keys.len() as int] == s);
                            }
                        }
                    }
                    assert forall|a: int, b: int| 0 <= a < keys.len() && j + 1 <= b < st.len() implies lex_lt(
                        #[trigger] keys[a],
                        #[trigger] st[b],
                    ) by {
                        if a == old_keys.len() {
                            assert(lex_lt(st[j as int], st[b]));
                        } else {
                            assert(lex_lt(old_keys[a], st[b]));
                        }
                    }
                    assert forall|a: int, b: int| 0 <= a < b < keys.len() implies lex_lt(#[trigger] keys[a], #[trigger] keys[b]) by {
                        if b == old_keys.len() {
                            assert(lex_lt(old_keys[a], st[j as int]));
                        } else {
                            assert(lex_lt(old_keys[a], old_keys[b]));
                        }
                    }
                    assert forall|a: int| 0 <= a < keys.len() implies member_synset_same(
                        #[trigger] r@[a],
                        lexicon.synset_table()[keys[a]],
                    ) by {
                        if a < old_keys.len() {
                            assert(r@[a] == old_r[a]);
                        }
                    }
                }
            },
            None => {
                proof {
                    assert forall|s: Seq<char>|
                        #[trigger] keys.contains(s) <==> (st.take(j + 1).contains(s) && lexicon.synset_table().contains_key(s)) by {
                        if keys.contains(s) {
                            let v = choose|v: int| 0 <= v < t0.len() && t0[v] == s;
                            assert(t1[v] == s);
                        }
                        if st.take(j + 1).contains(s) && lexicon.synset_table().contains_key(s) {
                            let v = choose|v: int| 0 <= v < t1.len() && t1[v] == s;
                            if v < j {
                                assert(t0[v] == s);
                            }
                        }
                    }
                }
            },
        }
        j += 1;
    }
    proof {
        assert(st.take(st.len() as int) =~= st);
        assert forall|s: Seq<char>|
            #[trigger] keys.contains(s) <==> (lemma_synset_texts(*lexicon, lemma@).contains(s)
                && lexicon.synset_table().contains_key(s)) by {
            assert(st.contains(s) == texts(names@).contains(s));
        }
        assert(strictly_sorted(keys));
    }
    r
}

/// Each key list holds each key of its index once, and no other.
pub open spec fn keys_match(p: LexiconParts) -> bool {
    &&& no_repeats(p.lemma_keys())
    &&& forall|k: Seq<char>|
        #![trigger p.lemma_keys().contains(k)]
        #![trigger p.lemma_index().contains_key(k)]
        p.lemma_keys().contains(k) <==> p.lemma_index().contains_key(k)
    &&& no_repeats(p.ili_keys())
    &&& forall|k: Seq<char>|
        #![trigger p.ili_keys().contains(k)]
        #![trigger p.ili_index().contains_key(k)]
        p.ili_keys().contains(k) <==> p.ili_index().contains_key(k)
    &&& no_repeats(p.synset_id_keys())
    &&& forall|k: Seq<char>|
        #![trigger p.synset_id_keys().contains(k)]
        #![trigger p.synset_table().contains_key(k)]
        p.synset_id_keys().contains(k) <==> p.synset_table().contains_key(k)
}

/// The whole wordnet graph, indexed for lookup. Its key lists hold each key of their index
/// once, whatever built it.
pub struct Lexicon {
    parts: LexiconParts,
}

/// What a filter keeps comes from the sequence.
proof fn lemma_filter_all_true(ks: Seq<Seq<char>>, pred: spec_fn(Seq<char>) -> bool)
    requires
        forall|k: Seq<char>| #[trigger] pred(k),
    ensures
        ks.filter(pred) == ks,
    decreases ks.len(),
{
    reveal(Seq::filter);
    if ks.len() > 0 {
        lemma_filter_all_true(ks.drop_last(), pred);
        assert(ks.drop_last().push(ks.last()) =~= ks);
    }
}

proof fn lemma_filter_within(ks: Seq<Seq<char>>, pred: spec_fn(Seq<char>) -> bool, x: Seq<char>)
    requires
        ks.filter(pred).contains(x),
    ensures
        ks.contains(x),
    decreases ks.len(),
{
    reveal(Seq::filter);
    if ks.len() > 0 {
        let rest = ks.drop_last();
        if x != ks.last() {
            if pred(ks.last()) {
                let f = rest.filter(pred).push(ks.last());
                let w = choose|w: int| 0 <= w < f.len() && f[w] == x;
                assert(rest.filter(pred)[w] == x);
            }
            lemma_filter_within(rest, pred, x);
            let v = choose|v: int| 0 <= v < rest.len() && rest[v] == x;
            assert(ks[v] == x);
        } else {
            assert(ks[ks.len() - 1] == x);
        }
    }
}

/// The values kept by a filter have no repeats when the sequence has none.
proof fn lemma_filter_no_repeats(ks: Seq<Seq<char>>, pred: spec_fn(Seq<char>) -> bool)
    requires
        no_repeats(ks),
    ensures
        no_repeats(ks.filter(pred)),
    decreases ks.len(),
{
    reveal(Seq::filter);
    if ks.len() > 0 {
        let rest = ks.drop_last();
        assert forall|a: int, b: int| 0 <= a < b < rest.len() implies #[trigger] rest[a] != #[trigger] rest[b] by {
            assert(rest[a] == ks[a] && rest[b] == ks[b]);
        }
        lemma_filter_no_repeats(rest, pred);
        if pred(ks.last()) {
            if rest.filter(pred).contains(ks.last()) {
                lemma_filter_within(rest, pred, ks.last());
                let v = choose|v: int| 0 <= v < rest.len() && rest[v] == ks.last();
                assert(ks[v] == ks[ks.len() - 1]);
            }
            lemma_push_keys(rest.filter(pred), ks.last());
        }
    }
}

impl Lexicon {
    #[verifier::type_invariant]
    spec fn well_keyed(self) -> bool {
        keys_match(self.parts)
    }

    /// Lemma to the synsets it is a member of.
    pub closed spec fn lemma_index(&self) -> Map<Seq<char>, Seq<SynsetId>> {
        self.parts.lemma_index()
    }

    /// The lemmas of the index, in the order they were first seen.
    pub closed spec fn lemma_keys(&self) -> Seq<Seq<char>> {
        self.parts.lemma_keys()
    }

    /// ILI to the synset linked to it.
    pub closed spec fn ili_index(&self) -> Map<Seq<char>, SynsetId> {
        self.parts.ili_index()
    }

    /// The ILIs of the index, in the order they were first seen.
    pub closed spec fn ili_keys(&self) -> Seq<Seq<char>> {
        self.parts.ili_keys()
    }

    /// Synset identifier to the synset with its members.
    pub closed spec fn synset_table(&self) -> Map<Seq<char>, MemberSynset> {
        self.parts.synset_table()
    }

    /// The identifiers of the synsets of the table, in the order they were first seen.
    pub closed spec fn synset_id_list(&self) -> Seq<SynsetId> {
        self.parts.synset_id_list()
    }

    /// The identifiers of `synset_id_list`, spelled out.
    pub open spec fn synset_id_keys(&self) -> Seq<Seq<char>> {
        self.synset_id_list().map_values(|i: SynsetId| i@)
    }

    /// The lemmas whose lowercase form begins with the lowercase form of `prefix`, in key order.
    pub open spec fn lemmas_with_prefix(&self, prefix: Seq<char>) -> Seq<Seq<char>> {
        self.lemma_keys().filter(|k: Seq<char>| has_prefix(lowercase(k), lowercase(prefix)))
    }

    /// The synset identifiers that begin with `prefix`, in list order.
    pub open spec fn ids_with_prefix(&self, prefix: Seq<char>) -> Seq<Seq<char>> {
        self.synset_id_list().map_values(|k: SynsetId| k@).filter(|k: Seq<char>| has_prefix(k, prefix))
    }

    /// The ILIs that begin with `prefix`, in key order.
    pub open spec fn ilis_with_prefix(&self, prefix: Seq<char>) -> Seq<Seq<char>> {
        self.ili_keys().filter(|k: Seq<char>| has_prefix(k, prefix))
    }

    /// An empty lexicon.
    pub fn new() -> (r: Lexicon)
        ensures
            r.lemma_index() == Map::<Seq<char>, Seq<SynsetId>>::empty(),
            r.lemma_keys() == Seq::<Seq<char>>::empty(),
            r.ili_index() == Map::<Seq<char>, SynsetId>::empty(),
            r.ili_keys() == Seq::<Seq<char>>::empty(),
            r.synset_table() == Map::<Seq<char>, MemberSynset>::empty(),
            r.synset_id_list() == Seq::<SynsetId>::empty(),
    {
        let parts = LexiconParts::new();
        assert(parts.synset_id_keys() =~= Seq::<Seq<char>>::empty());
        Lexicon { parts }
    }

    /// The identifiers of the synsets of the table, in the order they were first seen.
    pub fn synset_ids(&self) -> (r: &Vec<SynsetId>)
        ensures
            r@ == self.synset_id_list(),
    {
        &self.parts.synset_ids
    }

    /// The synsets that `lemma` is a member of.
    pub fn entry_by_lemma(&self, lemma: &str) -> (r: Vec<SynsetId>)
        ensures
            r@ == (if self.lemma_index().contains_key(lemma@) {
                self.lemma_index()[lemma@]
            } else {
                Seq::<SynsetId>::empty()
            }),
    {
        self.parts.entry_by_lemma(lemma)
    }

    /// The synset with identifier `synset_id`.
    pub fn synset_by_id(&self, synset_id: &SynsetId) -> (r: Option<MemberSynset>)
        ensures
            match r {
                Some(m) => self.synset_table().contains_key(synset_id@) && member_synset_same(
                    m,
                    self.synset_table()[synset_id@],
                ),
                None => !self.synset_table().contains_key(synset_id@),
            },
    {
        self.parts.synset_by_id(synset_id)
    }

    /// The synset linked to the ILI `ili`, with its identifier.
    pub fn synset_by_ili(&self, ili: &str) -> (r: Option<(&SynsetId, MemberSynset)>)
        ensures
            match r {
                Some((id, m)) => {
                    &&& self.ili_index().contains_key(ili@)
                    &&& *id == self.ili_index()[ili@]
                    &&& self.synset_table().contains_key(id@)
                    &&& member_synset_same(m, self.synset_table()[id@])
                },
                None => !self.ili_index().contains_key(ili@) || !self.synset_table().contains_key(
                    self.ili_index()[ili@]@,
                ),
            },
    {
        self.parts.synset_by_ili(ili)
    }

    /// The identifier of the synset linked to the ILI `ili`.
    pub fn ili_synset(&self, ili: &str) -> (r: Option<&SynsetId>)
        ensures
            match r {
                Some(id) => self.ili_index().contains_key(ili@) && *id == self.ili_index()[ili@],
                None => !self.ili_index().contains_key(ili@),
            },
    {
        self.parts.ili_synset(ili)
    }

    /// The lemmas whose lowercase form begins with the lowercase form of `prefix`: each once.
    pub fn lemma_by_prefix(&self, prefix: &str) -> (r: Vec<String>)
        ensures
            r@.map_values(|s: String| s@) == self.lemmas_with_prefix(prefix@),
            no_repeats(r@.map_values(|s: String| s@)),
    {
        proof {
            use_type_invariant(self);
            lemma_filter_no_repeats(self.lemma_keys(), |k: Seq<char>| has_prefix(lowercase(k), lowercase(prefix@)));
        }
        self.parts.lemma_by_prefix(prefix)
    }

    /// Law of lemma lookup by prefix: a text is listed exactly when it is a lemma of the
    /// lexicon whose lowercase form begins with the lowercase form of the prefix; two prefixes
    /// with the same lowercase form list the same lemmas; a prefix whose lowercase form is
    /// empty lists every lemma.
    pub proof fn law_lemma_prefix(&self, p: Seq<char>, p2: Seq<char>)
        ensures
            forall|k: Seq<char>| #[trigger] self.lemmas_with_prefix(p).contains(k)
                <==> (self.lemma_keys().contains(k) && has_prefix(lowercase(k), lowercase(p))),
            lowercase(p) == lowercase(p2) ==> self.lemmas_with_prefix(p) == self.lemmas_with_prefix(p2),
            lowercase(p).len() == 0 ==> self.lemmas_with_prefix(p) == self.lemma_keys(),
    {
        let pred = |k: Seq<char>| has_prefix(lowercase(k), lowercase(p));
        let ks = self.lemma_keys();
        assert forall|k: Seq<char>| #[trigger] self.lemmas_with_prefix(p).contains(k)
            <==> (ks.contains(k) && has_prefix(lowercase(k), lowercase(p))) by {
            if ks.filter(pred).contains(k) {
                ks.lemma_filter_contains_rev(pred, k);
                let i = choose|i: int| 0 <= i < ks.filter(pred).len() && ks.filter(pred)[i] == k;
                ks.lemma_filter_pred(pred, i);
            }
            if ks.contains(k) && pred(k) {
                let i = choose|i: int| 0 <= i < ks.len() && ks[i] == k;
                ks.lemma_filter_contains(pred, i);
            }
        }
        if lowercase(p) == lowercase(p2) {
            let pred2 = |k: Seq<char>| has_prefix(lowercase(k), lowercase(p2));
            assert(pred =~= pred2);
        }
        if lowercase(p).len() == 0 {
            assert forall|k: Seq<char>| #[trigger] pred(k) by {
                assert(lowercase(k).subrange(0, 0) =~= lowercase(p));
            }
            lemma_filter_all_true(ks, pred);
        }
    }

    /// The synset identifiers that begin with `prefix`: each once.
    pub fn ssid_by_prefix(&self, prefix: &str) -> (r: Vec<String>)
        ensures
            r@.map_values(|s: String| s@) == self.ids_with_prefix(prefix@),
            no_repeats(r@.map_values(|s: String| s@)),
    {
        proof {
            use_type_invariant(self);
            lemma_filter_no_repeats(self.synset_id_keys(), |k: Seq<char>| has_prefix(k, prefix@));
        }
        self.parts.ssid_by_prefix(prefix)
    }

    /// The ILIs of the index that begin with `prefix`: each once.
    pub fn ili_by_prefix(&self, prefix: &str) -> (r: Vec<String>)
        ensures
            r@.map_values(|s: String| s@) == self.ilis_with_prefix(prefix@),
            no_repeats(r@.map_values(|s: String| s@)),
    {
        proof {
            use_type_invariant(self);
            lemma_filter_no_repeats(self.ili_keys(), |k: Seq<char>| has_prefix(k, prefix@));
        }
        self.parts.ili_by_prefix(prefix)
    }
}

pub open spec fn lexicon_of(l: Lexicon, all: Seq<Synset>, entries: Seq<(String, Entries)>) -> bool {
    &&& forall|k: Seq<char>|
        #![trigger l.lemma_index().contains_key(k)]
        #![trigger lemma_synsets(all, k)]
        l.lemma_index().contains_key(k) <==> lemma_synsets(all, k).len() > 0
    &&& forall|k: Seq<char>| l.lemma_index().contains_key(k) ==> #[trigger] l.lemma_index()[k] == lemma_synsets(all, k)
    &&& no_repeats(l.lemma_keys())
    &&& forall|k: Seq<char>|
        #![trigger l.lemma_keys().contains(k)]
        #![trigger l.lemma_index().contains_key(k)]
        l.lemma_keys().contains(k) <==> l.lemma_index().contains_key(k)
    &&& forall|k: Seq<char>|
        #![trigger l.ili_index().contains_key(k)]
        #![trigger ili_owner(all, k)]
        l.ili_index().contains_key(k) <==> ili_owner(all, k) is Some
    &&& forall|k: Seq<char>| l.ili_index().contains_key(k) ==> #[trigger] l.ili_index()[k] == ili_owner(all, k)->0
    &&& no_repeats(l.ili_keys())
    &&& forall|k: Seq<char>|
        #![trigger l.ili_keys().contains(k)]
        #![trigger l.ili_index().contains_key(k)]
        l.ili_keys().contains(k) <==> l.ili_index().contains_key(k)
    &&& forall|k: Seq<char>|
        #![trigger l.synset_table().contains_key(k)]
        #![trigger last_with_id(all, k)]
        l.synset_table().contains_key(k) <==> last_with_id(all, k) is Some
    &&& forall|k: Seq<char>|
        l.synset_table().contains_key(k) ==> resolved_from(#[trigger] l.synset_table()[k], last_with_id(all, k)->0, entries)
    &&& no_repeats(l.synset_id_keys())
    &&& forall|k: Seq<char>|
        #![trigger l.synset_id_keys().contains(k)]
        #![trigger l.synset_table().contains_key(k)]
        l.synset_id_keys().contains(k) <==> l.synset_table().contains_key(k)
}

/// Every synset of the store can have its members resolved against `entries`.
pub open spec fn store_resolvable(store: Seq<(String, Synsets)>, entries: Seq<(String, Entries)>) -> bool {
    forall|i: int, j: int| in_store(store, i, j) ==> members_resolvable(#[trigger] syn_at(store, i, j), entries)
}

/// Builds the lexicon of a store: the lemma and ILI indices, and the table of synsets with
/// their members resolved against the entries.
pub fn add_members(synsets: Vec<(String, Synsets)>, entries: &Vec<(String, Entries)>) -> (r: Lexicon)
    requires
        store_resolvable(synsets@, entries@),
    ensures
        lexicon_of(r, all_synsets(synsets@), entries@),
{
    let ghost store = synsets@;
    let index = EntriesIndex::new(entries);
    let mut lex = LexiconParts::new();
    let ghost mut done: Seq<Synset> = Seq::empty();
    proof {
        assert(parts_of(lex, done, entries@));
    }
    for pair in it: synsets.into_iter()
        invariant
            it.seq() == store,
            store_resolvable(store, entries@),
            index.indexes(entries@),
            done == all_synsets(store.take(it.index() as int)),
            parts_of(lex, done, entries@),
    {
        let ghost i = it.index() as int;
        let (_lexname, file) = pair;
        let ghost ss = file.0@;
        proof {
            assert(pair == store[i]);
        }
        for entry in jt: file.0.into_iter()
            invariant
                it.seq() == store,
                store_resolvable(store, entries@),
                index.indexes(entries@),
                0 <= i < store.len(),
                ss == store[i].1.0@,
                jt.seq() == ss,
                done == all_synsets(store.take(i)) + file_synsets(ss.take(jt.index() as int)),
                parts_of(lex, done, entries@),
        {
            let ghost j = jt.index() as int;
            let (_id, synset) = entry;
            let ghost sg = synset;
            proof {
                assert(entry == ss[j]);
                assert(in_store(store, i, j));
                assert(syn_at(store, i, j) == sg);
            }
            lex.add_synset(synset, entries, &index, Ghost(done));
            proof {
                assert(file_synsets(ss.take(j + 1)) =~= file_synsets(ss.take(j)).push(sg));
                assert(done.push(sg) =~= all_synsets(store.take(i)) + file_synsets(ss.take(j + 1)));
                done = done.push(sg);
            }
        }
        proof {
            assert(ss.take(ss.len() as int) =~= ss);
            assert(store.take(i + 1).drop_last() =~= store.take(i));
            assert(all_synsets(store.take(i + 1)) == all_synsets(store.take(i)) + file_synsets(ss));
        }
    }
    proof {
        assert(store.take(store.len() as int) =~= store);
    }
    Lexicon { parts: lex }
}

/// The lexicon of the store, or `None` when the members of some synset cannot be resolved
/// against `entries`.
pub fn try_add_members(synsets: Vec<(String, Synsets)>, entries: &Vec<(String, Entries)>) -> (r: Option<Lexicon>)
    ensures
        r is Some <==> store_resolvable(synsets@, entries@),
        r matches Some(l) ==> lexicon_of(l, all_synsets(synsets@), entries@),
{
    let index = EntriesIndex::new(entries);
    let mut i: usize = 0;
    while i < synsets.len()
        invariant
            i <= synsets.len(),
            index.indexes(entries@),
            forall|a: int, b: int| 0 <= a < i && in_store(synsets@, a, b) ==> members_resolvable(#[trigger] syn_at(synsets@, a, b), entries@),
        decreases synsets.len() - i,
    {
        let file = &synsets[i].1.0;
        let mut j: usize = 0;
        while j < file.len()
            invariant
                i < synsets.len(),
                index.indexes(entries@),
                *file == synsets@[i as int].1.0,
                j <= file.len(),
                forall|a: int, b: int| 0 <= a < i && in_store(synsets@, a, b) ==> members_resolvable(#[trigger] syn_at(synsets@, a, b), entries@),
                forall|b: int| 0 <= b < j ==> members_resolvable(#[trigger] syn_at(synsets@, i as int, b), entries@),
            decreases file.len() - j,
        {
            if !members_check(&file[j].1, entries, Some(&index)) {
                assert(in_store(synsets@, i as int, j as int));
                assert(!members_resolvable(syn_at(synsets@, i as int, j as int), entries@));
                return None;
            }
            j += 1;
        }
        i += 1;
    }
    Some(add_members(synsets, entries))
}


proof fn lemma_occurrences_has(ms: Seq<String>, x: int, id: SynsetId)
    requires
        0 <= x < ms.len(),
    ensures
        occurrences(ms, ms[x]@, id).contains(id),
    decreases ms.len(),
{
    let l = ms[x]@;
    let rest = ms.drop_last();
    let tail = if ms.last()@ == l { seq![id] } else { seq![] };
    if x == ms.len() - 1 {
        assert((occurrences(rest, l, id) + tail)[occurrences(rest, l, id).len() as int] == id);
    } else {
        assert(rest[x] == ms[x]);
        lemma_occurrences_has(rest, x, id);
        let w = choose|w: int| 0 <= w < occurrences(rest, l, id).len() && occurrences(rest, l, id)[w] == id;
        assert((occurrences(rest, l, id) + tail)[w] == id);
    }
}

proof fn lemma_lemma_synsets_has(all: Seq<Synset>, k: int, x: int)
    requires
        0 <= k < all.len(),
        0 <= x < all[k].members@.len(),
    ensures
        lemma_synsets(all, all[k].members@[x]@).contains(all[k].id->0),
    decreases all.len(),
{
    let l = all[k].members@[x]@;
    let rest = all.drop_last();
    let a = lemma_synsets(rest, l);
    let b = occurrences(all.last().members@, l, all.last().id->0);
    if k == all.len() - 1 {
        lemma_occurrences_has(all[k].members@, x, all[k].id->0);
        let w = choose|w: int| 0 <= w < b.len() && b[w] == all[k].id->0;
        assert((a + b)[a.len() + w] == all[k].id->0);
    } else {
        assert(rest[k] == all[k]);
        lemma_lemma_synsets_has(rest, k, x);
        let w = choose|w: int| 0 <= w < a.len() && a[w] == all[k].id->0;
        assert((a + b)[w] == all[k].id->0);
    }
}

/// Law of the lemma index: in the lexicon of a set of synsets, every member lemma of every
/// synset is indexed, and looking it up yields that synset among its results.
pub proof fn law_member_indexed(l: Lexicon, all: Seq<Synset>, entries: Seq<(String, Entries)>, k: int, x: int)
    requires
        lexicon_of(l, all, entries),
        0 <= k < all.len(),
        0 <= x < all[k].members@.len(),
    ensures
        l.lemma_index().contains_key(all[k].members@[x]@),
        l.lemma_index()[all[k].members@[x]@].contains(all[k].id->0),
{
    lemma_lemma_synsets_has(all, k, x);
    let lemma = all[k].members@[x]@;
    assert(lemma_synsets(all, lemma).len() > 0);
    assert(l.lemma_index().contains_key(lemma));
}

} // verus!
