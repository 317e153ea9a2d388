//! Summary statistics of a wordnet: how many synsets, entries, senses and relations it holds,
//! by part of speech and by relation, with the roots and multiple inheritance of its hypernym
//! hierarchy.

use vstd::prelude::*;
use crate::ids::{pos_code, PosKey};
use crate::model::{Entry, Sense, SenseRelType, Synset, SynsetRel, sense_rel_field, synset_rel};
use crate::text::{lemma_lex_lt_irreflexive, lemma_lex_lt_total, lemma_lex_lt_transitive, lex_lt, str_eq, str_lt, strictly_sorted};

verus! {

// ---------------------------------------------------------------------------------------------
// Tallies: counts by key, kept in key order.
// ---------------------------------------------------------------------------------------------

/// How much the additions of `bag` add up to for the key `k`.
pub open spec fn bag_count(bag: Seq<(Seq<char>, nat)>, k: Seq<char>) -> nat
    decreases bag.len(),
{
    if bag.len() == 0 {
        0
    } else {
        bag_count(bag.drop_last(), k) + if bag.last().0 == k {
            bag.last().1
        } else {
            0
        }
    }
}

/// How much the additions of `bag` add up to over all keys.
pub open spec fn bag_total(bag: Seq<(Seq<char>, nat)>) -> nat
    decreases bag.len(),
{
    if bag.len() == 0 {
        0
    } else {
        bag_total(bag.drop_last()) + bag.last().1
    }
}

/// The keys of a tally.
pub open spec fn keys_of(t: Seq<(String, usize)>) -> Seq<Seq<char>> {
    t.map_values(|p: (String, usize)| p.0@)
}

/// `t` counts the additions of `bag`: one row per key with a positive count, holding that
/// count, rows in key order.
pub open spec fn tallied(t: Seq<(String, usize)>, bag: Seq<(Seq<char>, nat)>) -> bool {
    &&& strictly_sorted(keys_of(t))
    &&& forall|i: int| 0 <= i < t.len() ==> (#[trigger] t[i]).1 == bag_count(bag, t[i].0@) && t[i].1 > 0
    &&& forall|k: Seq<char>| #[trigger] bag_count(bag, k) > 0 ==> keys_of(t).contains(k)
}

proof fn lemma_bag_push(bag: Seq<(Seq<char>, nat)>, k: Seq<char>, n: nat)
    ensures
        forall|x: Seq<char>| #[trigger] bag_count(bag.push((k, n)), x) == bag_count(bag, x) + if x == k { n } else { 0 },
        bag_total(bag.push((k, n))) == bag_total(bag) + n,
{
    assert(bag.push((k, n)).drop_last() =~= bag);
}

/// Splitting the additions splits their counts.
pub proof fn lemma_bag_split(a: Seq<(Seq<char>, nat)>, b: Seq<(Seq<char>, nat)>)
    ensures
        bag_total(a + b) == bag_total(a) + bag_total(b),
        forall|x: Seq<char>| #[trigger] bag_count(a + b, x) == bag_count(a, x) + bag_count(b, x),
    decreases b.len(),
{
    if b.len() == 0 {
        assert(a + b =~= a);
    } else {
        lemma_bag_split(a, b.drop_last());
        assert((a + b).drop_last() =~= a + b.drop_last());
        assert((a + b).last() == b.last());
        assert forall|x: Seq<char>| #[trigger] bag_count(a + b, x) == bag_count(a, x) + bag_count(b, x) by {
            assert(bag_count(a + b, x) == bag_count(a + b.drop_last(), x) + if b.last().0 == x { b.last().1 } else { 0 });
        }
    }
}

/// No key counts more than the whole.
pub proof fn lemma_bag_count_le_total(b: Seq<(Seq<char>, nat)>, k: Seq<char>)
    ensures
        bag_count(b, k) <= bag_total(b),
    decreases b.len(),
{
    if b.len() > 0 {
        lemma_bag_count_le_total(b.drop_last(), k);
    }
}

/// The first additions add up to no more than all of them.
pub proof fn lemma_bag_prefix(b: Seq<(Seq<char>, nat)>, q: int)
    requires
        0 <= q <= b.len(),
    ensures
        bag_total(b.take(q)) <= bag_total(b),
{
    lemma_bag_split(b.take(q), b.skip(q));
    assert(b.take(q) + b.skip(q) =~= b);
}

/// Adds `amount` to the count of `key`.
fn tally_add(t: &mut Vec<(String, usize)>, key: &str, amount: usize, Ghost(bag): Ghost<Seq<(Seq<char>, nat)>>)
    requires
        tallied(old(t)@, bag),
        bag_count(bag, key@) + amount <= usize::MAX,
    ensures
        tallied(final(t)@, bag.push((key@, amount as nat))),
{
    let ghost nb = bag.push((key@, amount as nat));
    proof {
        lemma_bag_push(bag, key@, amount as nat);
    }
    if amount == 0 {
        assert forall|k: Seq<char>| #[trigger] bag_count(nb, k) > 0 implies keys_of(t@).contains(k) by {
            assert(bag_count(bag, k) > 0);
        }
        return;
    }
    let mut p: usize = 0;
    while p < t.len() && str_lt(t[p].0.as_str(), key)
        invariant
            p <= t@.len(),
            forall|q: int| 0 <= q < p ==> lex_lt(#[trigger] keys_of(t@)[q], key@),
        decreases t@.len() - p,
    {
        p += 1;
    }
    let ghost old_t = t@;
    let ghost ok = keys_of(old_t);
    if p < t.len() && str_eq(t[p].0.as_str(), key) {
        let c = t[p].1;
        let k = t[p].0.clone();
        proof {
            assert(c == bag_count(bag, key@));
        }
        t.set(p, (k, c + amount));
        proof {
            assert(keys_of(t@) =~= ok);
            assert forall|i: int| 0 <= i < t@.len() implies (#[trigger] t@[i]).1 == bag_count(nb, t@[i].0@) && t@[i].1 > 0 by {
                if i != p {
                    assert(t@[i] == old_t[i]);
                    if i < p {
                        assert(lex_lt(ok[i], ok[p as int]));
                    } else {
                        assert(lex_lt(ok[p as int], ok[i]));
                    }
                    lemma_lex_lt_irreflexive(ok[i]);
                }
            }
            assert forall|x: Seq<char>| #[trigger] bag_count(nb, x) > 0 implies keys_of(t@).contains(x) by {
                if x == key@ {
                    assert(ok[p as int] == x);
                } else {
                    assert(bag_count(bag, x) > 0);
                }
            }
        }
    } else {
        proof {
            if p < ok.len() {
                lemma_lex_lt_total(ok[p as int], key@);
            }
            assert forall|q: int| 0 <= q < ok.len() implies #[trigger] ok[q] != key@ by {
                if q < p {
                    lemma_lex_lt_irreflexive(key@);
                } else {
                    if q > p {
                        lemma_lex_lt_transitive(key@, ok[p as int], ok[q]);
                    }
                    lemma_lex_lt_irreflexive(key@);
                }
            }
            if bag_count(bag, key@) > 0 {
                assert(ok.contains(key@));
                let w = choose|w: int| 0 <= w < ok.len() && ok[w] == key@;
                assert(ok[w] != key@);
            }
        }
        t.insert(p, (key.to_owned(), amount));
        proof {
            let nk = keys_of(t@);
            assert(nk =~= ok.insert(p as int, key@));
            assert forall|a: int, b: int| 0 <= a < b < nk.len() implies lex_lt(#[trigger] nk[a], #[trigger] nk[b]) by {
                if b < p {
                } else if b == p {
                } else if a < p {
                    assert(nk[a] == ok[a] && nk[b] == ok[b - 1]);
                } else if a == p {
                    if b - 1 > p {
                        lemma_lex_lt_transitive(key@, ok[p as int], ok[b - 1]);
                    }
                } else {
                    assert(nk[a] == ok[a - 1] && nk[b] == ok[b - 1]);
                }
            }
            assert forall|i: int| 0 <= i < t@.len() implies (#[trigger] t@[i]).1 == bag_count(nb, t@[i].0@) && t@[i].1 > 0 by {
                if i < p {
                    assert(t@[i] == old_t[i]);
                    assert(ok[i] != key@);
                } else if i > p {
                    assert(t@[i] == old_t[i - 1]);
                    assert(ok[i - 1] != key@);
                }
            }
            assert forall|x: Seq<char>| #[trigger] bag_count(nb, x) > 0 implies keys_of(t@).contains(x) by {
                if x == key@ {
                    assert(nk[p as int] == x);
                } else {
                    assert(bag_count(bag, x) > 0);
                    assert(ok.contains(x));
                    let w = choose|w: int| 0 <= w < ok.len() && ok[w] == x;
                    if w < p {
                        assert(nk[w] == x);
                    } else {
                        assert(nk[w + 1] == x);
                    }
                }
            }
        }
    }
}

// ---------------------------------------------------------------------------------------------
// Relation names.
// ---------------------------------------------------------------------------------------------

/// The synset relation fields in the order a synset lists its links.
pub open spec fn synset_rels() -> Seq<SynsetRel> {
    seq![
        SynsetRel::Also,
        SynsetRel::Attribute,
        SynsetRel::Causes,
        SynsetRel::DomainRegion,
        SynsetRel::DomainTopic,
        SynsetRel::Exemplifies,
        SynsetRel::Entails,
        SynsetRel::Hypernym,
        SynsetRel::InstanceHypernym,
        SynsetRel::MeroMember,
        SynsetRel::MeroPart,
        SynsetRel::MeroSubstance,
        SynsetRel::Similar,
        SynsetRel::Hyponym,
        SynsetRel::IsCausedBy,
        SynsetRel::HasDomainRegion,
        SynsetRel::HasDomainTopic,
        SynsetRel::IsExemplifiedBy,
        SynsetRel::IsEntailedBy,
        SynsetRel::InstanceHyponym,
        SynsetRel::HoloMember,
        SynsetRel::HoloPart,
        SynsetRel::HoloSubstance,
    ]
}

/// The name of a synset relation, as the data files spell it.
pub open spec fn synset_rel_name(r: SynsetRel) -> Seq<char> {
    match r {
        SynsetRel::Also => "also"@,
        SynsetRel::Attribute => "attribute"@,
        SynsetRel::Causes => "causes"@,
        SynsetRel::DomainRegion => "domain_region"@,
        SynsetRel::DomainTopic => "domain_topic"@,
        SynsetRel::Exemplifies => "exemplifies"@,
        SynsetRel::Entails => "entails"@,
        SynsetRel::Hypernym => "hypernym"@,
        SynsetRel::InstanceHypernym => "instance_hypernym"@,
        SynsetRel::MeroMember => "mero_member"@,
        SynsetRel::MeroPart => "mero_part"@,
        SynsetRel::MeroSubstance => "mero_substance"@,
        SynsetRel::Similar => "similar"@,
        SynsetRel::Hyponym => "hyponym"@,
        SynsetRel::IsCausedBy => "is_caused_by"@,
        SynsetRel::HasDomainRegion => "has_domain_region"@,
        SynsetRel::HasDomainTopic => "has_domain_topic"@,
        SynsetRel::IsExemplifiedBy => "is_exemplified_by"@,
        SynsetRel::IsEntailedBy => "is_entailed_by"@,
        SynsetRel::InstanceHyponym => "instance_hyponym"@,
        SynsetRel::HoloMember => "holo_member"@,
        SynsetRel::HoloPart => "holo_part"@,
        SynsetRel::HoloSubstance => "holo_substance"@,
    }
}

/// The sense relation fields in the order a sense lists its links.
pub open spec fn sense_rels() -> Seq<SenseRelType> {
    seq![
        SenseRelType::Antonym,
        SenseRelType::Also,
        SenseRelType::Participle,
        SenseRelType::Pertainym,
        SenseRelType::Derivation,
        SenseRelType::DomainTopic,
        SenseRelType::HasDomainTopic,
        SenseRelType::DomainRegion,
        SenseRelType::HasDomainRegion,
        SenseRelType::Exemplifies,
        SenseRelType::IsExemplifiedBy,
        SenseRelType::Similar,
        SenseRelType::Other,
        SenseRelType::Agent,
        SenseRelType::Material,
        SenseRelType::Event,
        SenseRelType::Instrument,
        SenseRelType::Location,
        SenseRelType::ByMeansOf,
        SenseRelType::Undergoer,
        SenseRelType::Property,
        SenseRelType::Result,
        SenseRelType::State,
        SenseRelType::Uses,
        SenseRelType::Destination,
        SenseRelType::BodyPart,
        SenseRelType::Vehicle,
    ]
}

/// The name of a sense relation, as the data files spell it.
pub open spec fn sense_rel_name(r: SenseRelType) -> Seq<char> {
    match r {
        SenseRelType::Antonym => "antonym"@,
        SenseRelType::Also => "also"@,
        SenseRelType::Participle => "participle"@,
        SenseRelType::Pertainym => "pertainym"@,
        SenseRelType::Derivation => "derivation"@,
        SenseRelType::DomainTopic => "domain_topic"@,
        SenseRelType::HasDomainTopic => "has_domain_topic"@,
        SenseRelType::DomainRegion => "domain_region"@,
        SenseRelType::HasDomainRegion => "has_domain_region"@,
        SenseRelType::Exemplifies => "exemplifies"@,
        SenseRelType::IsExemplifiedBy => "is_exemplified_by"@,
        SenseRelType::Similar => "similar"@,
        SenseRelType::Other => "other"@,
        SenseRelType::Agent => "agent"@,
        SenseRelType::Material => "material"@,
        SenseRelType::Event => "event"@,
        SenseRelType::Instrument => "instrument"@,
        SenseRelType::Location => "location"@,
        SenseRelType::ByMeansOf => "by_means_of"@,
        SenseRelType::Undergoer => "undergoer"@,
        SenseRelType::Property => "property"@,
        SenseRelType::Result => "result"@,
        SenseRelType::State => "state"@,
        SenseRelType::Uses => "uses"@,
        SenseRelType::Destination => "destination"@,
        SenseRelType::BodyPart => "body_part"@,
        SenseRelType::Vehicle => "vehicle"@,
    }
}

fn synset_rel_key(r: SynsetRel) -> (k: &'static str)
    ensures
        k@ == synset_rel_name(r),
{
    match r {
        SynsetRel::Also => "also",
        SynsetRel::Attribute => "attribute",
        SynsetRel::Causes => "causes",
        SynsetRel::DomainRegion => "domain_region",
        SynsetRel::DomainTopic => "domain_topic",
        SynsetRel::Exemplifies => "exemplifies",
        SynsetRel::Entails => "entails",
        SynsetRel::Hypernym => "hypernym",
        SynsetRel::InstanceHypernym => "instance_hypernym",
        SynsetRel::MeroMember => "mero_member",
        SynsetRel::MeroPart => "mero_part",
        SynsetRel::MeroSubstance => "mero_substance",
        SynsetRel::Similar => "similar",
        SynsetRel::Hyponym => "hyponym",
        SynsetRel::IsCausedBy => "is_caused_by",
        SynsetRel::HasDomainRegion => "has_domain_region",
        SynsetRel::HasDomainTopic => "has_domain_topic",
        SynsetRel::IsExemplifiedBy => "is_exemplified_by",
        SynsetRel::IsEntailedBy => "is_entailed_by",
        SynsetRel::InstanceHyponym => "instance_hyponym",
        SynsetRel::HoloMember => "holo_member",
        SynsetRel::HoloPart => "holo_part",
        SynsetRel::HoloSubstance => "holo_substance",
    }
}

fn sense_rel_key(r: SenseRelType) -> (k: &'static str)
    ensures
        k@ == sense_rel_name(r),
{
    match r {
        SenseRelType::Antonym => "antonym",
        SenseRelType::Also => "also",
        SenseRelType::Participle => "participle",
        SenseRelType::Pertainym => "pertainym",
        SenseRelType::Derivation => "derivation",
        SenseRelType::DomainTopic => "domain_topic",
        SenseRelType::HasDomainTopic => "has_domain_topic",
        SenseRelType::DomainRegion => "domain_region",
        SenseRelType::HasDomainRegion => "has_domain_region",
        SenseRelType::Exemplifies => "exemplifies",
        SenseRelType::IsExemplifiedBy => "is_exemplified_by",
        SenseRelType::Similar => "similar",
        SenseRelType::Other => "other",
        SenseRelType::Agent => "agent",
        SenseRelType::Material => "material",
        SenseRelType::Event => "event",
        SenseRelType::Instrument => "instrument",
        SenseRelType::Location => "location",
        SenseRelType::ByMeansOf => "by_means_of",
        SenseRelType::Undergoer => "undergoer",
        SenseRelType::Property => "property",
        SenseRelType::Result => "result",
        SenseRelType::State => "state",
        SenseRelType::Uses => "uses",
        SenseRelType::Destination => "destination",
        SenseRelType::BodyPart => "body_part",
        SenseRelType::Vehicle => "vehicle",
    }
}

fn all_synset_rels() -> (v: Vec<SynsetRel>)
    ensures
        v@ == synset_rels(),
{
    let mut v: Vec<SynsetRel> = Vec::new();
    v.push(SynsetRel::Also);
    v.push(SynsetRel::Attribute);
    v.push(SynsetRel::Causes);
    v.push(SynsetRel::DomainRegion);
    v.push(SynsetRel::DomainTopic);
    v.push(SynsetRel::Exemplifies);
    v.push(SynsetRel::Entails);
    v.push(SynsetRel::Hypernym);
    v.push(SynsetRel::InstanceHypernym);
    v.push(SynsetRel::MeroMember);
    v.push(SynsetRel::MeroPart);
    v.push(SynsetRel::MeroSubstance);
    v.push(SynsetRel::Similar);
    v.push(SynsetRel::Hyponym);
    v.push(SynsetRel::IsCausedBy);
    v.push(SynsetRel::HasDomainRegion);
    v.push(SynsetRel::HasDomainTopic);
    v.push(SynsetRel::IsExemplifiedBy);
    v.push(SynsetRel::IsEntailedBy);
    v.push(SynsetRel::InstanceHyponym);
    v.push(SynsetRel::HoloMember);
    v.push(SynsetRel::HoloPart);
    v.push(SynsetRel::HoloSubstance);
    assert(v@ =~= synset_rels());
    v
}

fn all_sense_rels() -> (v: Vec<SenseRelType>)
    ensures
        v@ == sense_rels(),
{
    let mut v: Vec<SenseRelType> = Vec::new();
    v.push(SenseRelType::Antonym);
    v.push(SenseRelType::Also);
    v.push(SenseRelType::Participle);
    v.push(SenseRelType::Pertainym);
    v.push(SenseRelType::Derivation);
    v.push(SenseRelType::DomainTopic);
    v.push(SenseRelType::HasDomainTopic);
    v.push(SenseRelType::DomainRegion);
    v.push(SenseRelType::HasDomainRegion);
    v.push(SenseRelType::Exemplifies);
    v.push(SenseRelType::IsExemplifiedBy);
    v.push(SenseRelType::Similar);
    v.push(SenseRelType::Other);
    v.push(SenseRelType::Agent);
    v.push(SenseRelType::Material);
    v.push(SenseRelType::Event);
    v.push(SenseRelType::Instrument);
    v.push(SenseRelType::Location);
    v.push(SenseRelType::ByMeansOf);
    v.push(SenseRelType::Undergoer);
    v.push(SenseRelType::Property);
    v.push(SenseRelType::Result);
    v.push(SenseRelType::State);
    v.push(SenseRelType::Uses);
    v.push(SenseRelType::Destination);
    v.push(SenseRelType::BodyPart);
    v.push(SenseRelType::Vehicle);
    assert(v@ =~= sense_rels());
    v
}

// ---------------------------------------------------------------------------------------------
// Synsets.
// ---------------------------------------------------------------------------------------------

/// How many hypernyms, of either kind, a synset has.
pub open spec fn parents(s: Synset) -> nat {
    s.hypernym@.len() + s.instance_hypernym@.len()
}

/// One addition per synset: its part of speech.
pub open spec fn pos_bag(ss: Seq<Synset>) -> Seq<(Seq<char>, nat)> {
    ss.map_values(|s: Synset| (pos_code(s.part_of_speech), 1nat))
}

/// One addition per synset, counting it under its part of speech when it is a root (it has no
/// hypernym of either kind).
pub open spec fn root_bag(ss: Seq<Synset>) -> Seq<(Seq<char>, nat)> {
    ss.map_values(|s: Synset| (pos_code(s.part_of_speech), if parents(s) == 0 { 1nat } else { 0nat }))
}

/// One addition per synset, counting it when it has more than one hypernym.
pub open spec fn multi_bag(ss: Seq<Synset>) -> Seq<(Seq<char>, nat)> {
    ss.map_values(|s: Synset| (Seq::<char>::empty(), if parents(s) > 1 { 1nat } else { 0nat }))
}

/// The links of a synset: for each relation, its name and how many targets it has.
pub open spec fn synset_links(s: Synset) -> Seq<(Seq<char>, nat)> {
    synset_rels().map_values(|r: SynsetRel| (synset_rel_name(r), synset_rel(s, r)@.len()))
}

/// The links of the synsets, synset after synset.
pub open spec fn link_bag(ss: Seq<Synset>) -> Seq<(Seq<char>, nat)>
    decreases ss.len(),
{
    if ss.len() == 0 {
        seq![]
    } else {
        link_bag(ss.drop_last()) + synset_links(ss.last())
    }
}

proof fn lemma_link_bag_prefix(ss: Seq<Synset>, j: int)
    requires
        0 <= j <= ss.len(),
    ensures
        bag_total(link_bag(ss.take(j))) <= bag_total(link_bag(ss)),
    decreases ss.len(),
{
    if j < ss.len() {
        assert(ss.take(j) =~= ss.drop_last().take(j));
        lemma_link_bag_prefix(ss.drop_last(), j);
        lemma_bag_split(link_bag(ss.drop_last()), synset_links(ss.last()));
    } else {
        assert(ss.take(j) =~= ss);
    }
}

/// The synset figures of a wordnet.
#[derive(Debug)]
pub struct SynsetStats {
    pub n_synsets: usize,
    /// Synsets by part of speech, in key order.
    pub synsets_by_pos: Vec<(String, usize)>,
    /// Synsets with no hypernym of either kind.
    pub n_roots: usize,
    pub roots_by_pos: Vec<(String, usize)>,
    /// Synsets with more than one hypernym.
    pub n_multiple_inheritance: usize,
    /// Synset-to-synset links.
    pub n_relations: usize,
    /// Links by relation name, in key order.
    pub relation_counts: Vec<(String, usize)>,
}

/// The figures of `synsets`: how many there are, by part of speech; the roots, by part of
/// speech; those with more than one hypernym; and their links, by relation.
pub fn synset_stats(synsets: &Vec<Synset>) -> (r: SynsetStats)
    requires
        bag_total(link_bag(synsets@)) <= usize::MAX,
    ensures
        r.n_synsets == synsets@.len(),
        tallied(r.synsets_by_pos@, pos_bag(synsets@)),
        r.n_roots == bag_total(root_bag(synsets@)),
        tallied(r.roots_by_pos@, root_bag(synsets@)),
        r.n_multiple_inheritance == bag_total(multi_bag(synsets@)),
        r.n_relations == bag_total(link_bag(synsets@)),
        tallied(r.relation_counts@, link_bag(synsets@)),
{
    let ghost ss = synsets@;
    let rels = all_synset_rels();
    let mut n: usize = 0;
    let mut by_pos: Vec<(String, usize)> = Vec::new();
    let mut n_roots: usize = 0;
    let mut roots: Vec<(String, usize)> = Vec::new();
    let mut n_multi: usize = 0;
    let mut n_rel: usize = 0;
    let mut rel_counts: Vec<(String, usize)> = Vec::new();
    while n < synsets.len()
        invariant
            ss == synsets@,
            rels@ == synset_rels(),
            bag_total(link_bag(ss)) <= usize::MAX,
            n <= ss.len(),
            bag_total(pos_bag(ss.take(n as int))) == n,
            tallied(by_pos@, pos_bag(ss.take(n as int))),
            n_roots == bag_total(root_bag(ss.take(n as int))),
            n_roots <= n,
            tallied(roots@, root_bag(ss.take(n as int))),
            n_multi == bag_total(multi_bag(ss.take(n as int))),
            n_multi <= n,
            n_rel == bag_total(link_bag(ss.take(n as int))),
            tallied(rel_counts@, link_bag(ss.take(n as int))),
        decreases ss.len() - n,
    {
        let s = &synsets[n];
        let ghost prefix = ss.take(n as int);
        let ghost next = ss.take(n + 1);
        proof {
            assert(next.drop_last() =~= prefix);
            assert(next.last() == *s);
            assert(pos_bag(next) =~= pos_bag(prefix).push((pos_code(s.part_of_speech), 1nat)));
            assert(root_bag(next) =~= root_bag(prefix).push(
                (pos_code(s.part_of_speech), if parents(*s) == 0 { 1nat } else { 0nat }),
            ));
            assert(multi_bag(next) =~= multi_bag(prefix).push(
                (Seq::<char>::empty(), if parents(*s) > 1 { 1nat } else { 0nat }),
            ));
            lemma_bag_push(pos_bag(prefix), pos_code(s.part_of_speech), 1);
            lemma_bag_push(root_bag(prefix), pos_code(s.part_of_speech), if parents(*s) == 0 { 1nat } else { 0nat });
            lemma_bag_push(multi_bag(prefix), Seq::<char>::empty(), if parents(*s) > 1 { 1nat } else { 0nat });
            lemma_bag_count_le_total(pos_bag(prefix), pos_code(s.part_of_speech));
            lemma_bag_count_le_total(root_bag(prefix), pos_code(s.part_of_speech));
        }
        let pos = s.part_of_speech.str();
        tally_add(&mut by_pos, pos, 1, Ghost(pos_bag(prefix)));
        let h = s.hypernym.len();
        let i = s.instance_hypernym.len();
        let is_root = h == 0 && i == 0;
        let is_multi = h > 1 || i > 1 || (h == 1 && i == 1);
        assert(is_root == (parents(*s) == 0) && is_multi == (parents(*s) > 1));
        tally_add(&mut roots, pos, if is_root { 1 } else { 0 }, Ghost(root_bag(prefix)));
        if is_root {
            n_roots += 1;
        }
        if is_multi {
            n_multi += 1;
        }
        let ghost links = synset_links(*s);
        proof {
            assert(link_bag(next) == link_bag(prefix) + links);
            lemma_link_bag_prefix(ss, n + 1);
            lemma_bag_split(link_bag(prefix), links);
            assert(link_bag(prefix) + links.take(0) =~= link_bag(prefix));
        }
        let mut q: usize = 0;
        while q < rels.len()
            invariant
                rels@ == synset_rels(),
                links == synset_links(*s),
                q <= rels@.len(),
                bag_total(link_bag(prefix) + links) <= usize::MAX,
                n_rel == bag_total(link_bag(prefix) + links.take(q as int)),
                tallied(rel_counts@, link_bag(prefix) + links.take(q as int)),
            decreases rels@.len() - q,
        {
            let r = rels[q];
            let amount = s.rel(r).len();
            let ghost done = link_bag(prefix) + links.take(q as int);
            proof {
                assert(links[q as int] == (synset_rel_name(r), amount as nat));
                assert(link_bag(prefix) + links.take(q + 1) =~= done.push((synset_rel_name(r), amount as nat)));
                lemma_bag_push(done, synset_rel_name(r), amount as nat);
                lemma_bag_count_le_total(done, synset_rel_name(r));
                lemma_bag_prefix(link_bag(prefix) + links, link_bag(prefix).len() + q + 1);
                assert((link_bag(prefix) + links).take(link_bag(prefix).len() + q + 1) =~= link_bag(prefix) + links.take(q + 1));
            }
            tally_add(&mut rel_counts, synset_rel_key(r), amount, Ghost(done));
            n_rel = n_rel + amount;
            q += 1;
        }
        proof {
            assert(links.take(rels@.len() as int) =~= links);
        }
        n += 1;
    }
    proof {
        assert(ss.take(ss.len() as int) =~= ss);
    }
    SynsetStats {
        n_synsets: n,
        synsets_by_pos: by_pos,
        n_roots,
        roots_by_pos: roots,
        n_multiple_inheritance: n_multi,
        n_relations: n_rel,
        relation_counts: rel_counts,
    }
}

// ---------------------------------------------------------------------------------------------
// Entries.
// ---------------------------------------------------------------------------------------------

/// One addition per entry: its part-of-speech key.
pub open spec fn entry_pos_bag(es: Seq<(PosKey, Entry)>) -> Seq<(Seq<char>, nat)> {
    es.map_values(|e: (PosKey, Entry)| (e.0@, 1nat))
}

/// One addition per entry: how many senses it has.
pub open spec fn sense_bag(es: Seq<(PosKey, Entry)>) -> Seq<(Seq<char>, nat)> {
    es.map_values(|e: (PosKey, Entry)| (Seq::<char>::empty(), e.1.sense@.len()))
}

/// The links of a sense: for each relation, its name and how many targets it has.
pub open spec fn sense_links(s: Sense) -> Seq<(Seq<char>, nat)> {
    sense_rels().map_values(|r: SenseRelType| (sense_rel_name(r), sense_rel_field(s, r)@.len()))
}

/// The links of the senses, sense after sense.
pub open spec fn senses_links(ss: Seq<Sense>) -> Seq<(Seq<char>, nat)>
    decreases ss.len(),
{
    if ss.len() == 0 {
        seq![]
    } else {
        senses_links(ss.drop_last()) + sense_links(ss.last())
    }
}

/// The links of the senses of the entries, entry after entry.
pub open spec fn entry_link_bag(es: Seq<(PosKey, Entry)>) -> Seq<(Seq<char>, nat)>
    decreases es.len(),
{
    if es.len() == 0 {
        seq![]
    } else {
        entry_link_bag(es.drop_last()) + senses_links(es.last().1.sense@)
    }
}

proof fn lemma_senses_links_prefix(ss: Seq<Sense>, j: int)
    requires
        0 <= j <= ss.len(),
    ensures
        bag_total(senses_links(ss.take(j))) <= bag_total(senses_links(ss)),
    decreases ss.len(),
{
    if j < ss.len() {
        assert(ss.take(j) =~= ss.drop_last().take(j));
        lemma_senses_links_prefix(ss.drop_last(), j);
        lemma_bag_split(senses_links(ss.drop_last()), sense_links(ss.last()));
    } else {
        assert(ss.take(j) =~= ss);
    }
}

proof fn lemma_entry_link_bag_prefix(es: Seq<(PosKey, Entry)>, j: int)
    requires
        0 <= j <= es.len(),
    ensures
        bag_total(entry_link_bag(es.take(j))) <= bag_total(entry_link_bag(es)),
    decreases es.len(),
{
    if j < es.len() {
        assert(es.take(j) =~= es.drop_last().take(j));
        lemma_entry_link_bag_prefix(es.drop_last(), j);
        lemma_bag_split(entry_link_bag(es.drop_last()), senses_links(es.last().1.sense@));
    } else {
        assert(es.take(j) =~= es);
    }
}

proof fn lemma_sense_bag_prefix(es: Seq<(PosKey, Entry)>, j: int)
    requires
        0 <= j <= es.len(),
    ensures
        bag_total(sense_bag(es.take(j))) <= bag_total(sense_bag(es)),
{
    assert(sense_bag(es.take(j)) =~= sense_bag(es).take(j));
    lemma_bag_prefix(sense_bag(es), j);
}

/// The entry figures of a wordnet.
#[derive(Debug)]
pub struct EntryStats {
    pub n_entries: usize,
    /// Entries by part-of-speech key, in key order.
    pub entries_by_pos: Vec<(String, usize)>,
    pub n_senses: usize,
    /// Sense-to-sense links.
    pub n_relations: usize,
    /// Links by relation name, in key order.
    pub relation_counts: Vec<(String, usize)>,
}

/// The figures of `entries` (each under its part-of-speech key): how many there are, by key;
/// how many senses they have; and the links of those senses, by relation.
pub fn entry_stats(entries: &Vec<(PosKey, Entry)>) -> (r: EntryStats)
    requires
        bag_total(sense_bag(entries@)) <= usize::MAX,
        bag_total(entry_link_bag(entries@)) <= usize::MAX,
    ensures
        r.n_entries == entries@.len(),
        tallied(r.entries_by_pos@, entry_pos_bag(entries@)),
        r.n_senses == bag_total(sense_bag(entries@)),
        r.n_relations == bag_total(entry_link_bag(entries@)),
        tallied(r.relation_counts@, entry_link_bag(entries@)),
{
    let ghost es = entries@;
    let rels = all_sense_rels();
    let mut n: usize = 0;
    let mut by_pos: Vec<(String, usize)> = Vec::new();
    let mut n_senses: usize = 0;
    let mut n_rel: usize = 0;
    let mut rel_counts: Vec<(String, usize)> = Vec::new();
    while n < entries.len()
        invariant
            es == entries@,
            rels@ == sense_rels(),
            bag_total(sense_bag(es)) <= usize::MAX,
            bag_total(entry_link_bag(es)) <= usize::MAX,
            n <= es.len(),
            bag_total(entry_pos_bag(es.take(n as int))) == n,
            tallied(by_pos@, entry_pos_bag(es.take(n as int))),
            n_senses == bag_total(sense_bag(es.take(n as int))),
            n_rel == bag_total(entry_link_bag(es.take(n as int))),
            tallied(rel_counts@, entry_link_bag(es.take(n as int))),
        decreases es.len() - n,
    {
        let (key, entry) = &entries[n];
        let ghost prefix = es.take(n as int);
        let ghost next = es.take(n + 1);
        proof {
            assert(next.drop_last() =~= prefix);
            assert(next.last() == (*key, *entry));
            assert(entry_pos_bag(next) =~= entry_pos_bag(prefix).push((key@, 1nat)));
            assert(sense_bag(next) =~= sense_bag(prefix).push((Seq::<char>::empty(), entry.sense@.len())));
            lemma_bag_push(entry_pos_bag(prefix), key@, 1);
            lemma_bag_push(sense_bag(prefix), Seq::<char>::empty(), entry.sense@.len());
            lemma_bag_count_le_total(entry_pos_bag(prefix), key@);
            lemma_sense_bag_prefix(es, n + 1);
        }
        tally_add(&mut by_pos, key.as_str(), 1, Ghost(entry_pos_bag(prefix)));
        n_senses = n_senses + entry.sense.len();
        let ghost all_links = senses_links(entry.sense@);
        proof {
            assert(entry_link_bag(next) == entry_link_bag(prefix) + all_links);
            lemma_entry_link_bag_prefix(es, n + 1);
            assert(entry.sense@.take(0) =~= Seq::<Sense>::empty());
            assert(entry_link_bag(prefix) + senses_links(entry.sense@.take(0)) =~= entry_link_bag(prefix));
        }
        let mut m: usize = 0;
        while m < entry.sense.len()
            invariant
                rels@ == sense_rels(),
                all_links == senses_links(entry.sense@),
                m <= entry.sense@.len(),
                bag_total(entry_link_bag(prefix) + all_links) <= usize::MAX,
                n_rel == bag_total(entry_link_bag(prefix) + senses_links(entry.sense@.take(m as int))),
                tallied(rel_counts@, entry_link_bag(prefix) + senses_links(entry.sense@.take(m as int))),
            decreases entry.sense@.len() - m,
        {
            let sense = &entry.sense[m];
            let ghost before = entry_link_bag(prefix) + senses_links(entry.sense@.take(m as int));
            let ghost links = sense_links(*sense);
            proof {
                let t1 = entry.sense@.take(m + 1);
                assert(t1.drop_last() =~= entry.sense@.take(m as int));
                assert(t1.last() == *sense);
                assert(entry_link_bag(prefix) + senses_links(t1) =~= before + links);
                lemma_senses_links_prefix(entry.sense@, m + 1);
                lemma_bag_split(entry_link_bag(prefix), senses_links(t1));
                lemma_bag_split(entry_link_bag(prefix), all_links);
                lemma_bag_split(before, links);
                assert(before + links.take(0) =~= before);
            }
            let mut q: usize = 0;
            while q < rels.len()
                invariant
                    rels@ == sense_rels(),
                    links == sense_links(*sense),
                    q <= rels@.len(),
                    bag_total(before + links) <= usize::MAX,
                    n_rel == bag_total(before + links.take(q as int)),
                    tallied(rel_counts@, before + links.take(q as int)),
                decreases rels@.len() - q,
            {
                let r = rels[q];
                let amount = sense.rel_links(r).len();
                let ghost done = before + links.take(q as int);
                proof {
                    assert(links[q as int] == (sense_rel_name(r), amount as nat));
                    assert(before + links.take(q + 1) =~= done.push((sense_rel_name(r), amount as nat)));
                    lemma_bag_push(done, sense_rel_name(r), amount as nat);
                    lemma_bag_count_le_total(done, sense_rel_name(r));
                    lemma_bag_prefix(before + links, before.len() + q + 1);
                    assert((before + links).take(before.len() + q + 1) =~= before + links.take(q + 1));
                }
                tally_add(&mut rel_counts, sense_rel_key(r), amount, Ghost(done));
                n_rel = n_rel + amount;
                q += 1;
            }
            proof {
                assert(links.take(rels@.len() as int) =~= links);
                let t1 = entry.sense@.take(m + 1);
                assert(entry_link_bag(prefix) + senses_links(t1) =~= before + links);
            }
            m += 1;
        }
        proof {
            assert(entry.sense@.take(entry.sense@.len() as int) =~= entry.sense@);
        }
        n += 1;
    }
    proof {
        assert(es.take(es.len() as int) =~= es);
    }
    EntryStats { n_entries: n, entries_by_pos: by_pos, n_senses, n_relations: n_rel, relation_counts: rel_counts }
}


proof fn lemma_rel_name_facts()
    ensures
        "also"@.len() == 4 && "also"@[0] == 'a',
        "attribute"@.len() == 9 && "attribute"@[0] == 'a',
        "causes"@.len() == 6 && "causes"@[0] == 'c',
        "domain_region"@.len() == 13 && "domain_region"@[0] == 'd',
        "domain_topic"@.len() == 12 && "domain_topic"@[0] == 'd',
        "exemplifies"@.len() == 11 && "exemplifies"@[0] == 'e',
        "entails"@.len() == 7 && "entails"@[0] == 'e',
        "hypernym"@.len() == 8 && "hypernym"@[0] == 'h',
        "instance_hypernym"@.len() == 17 && "instance_hypernym"@[0] == 'i' && "instance_hypernym"@[1] == 'n',
        "mero_member"@.len() == 11 && "mero_member"@[0] == 'm',
        "mero_part"@.len() == 9 && "mero_part"@[0] == 'm',
        "mero_substance"@.len() == 14 && "mero_substance"@[0] == 'm',
        "similar"@.len() == 7 && "similar"@[0] == 's',
        "hyponym"@.len() == 7 && "hyponym"@[0] == 'h',
        "is_caused_by"@.len() == 12 && "is_caused_by"@[0] == 'i',
        "has_domain_region"@.len() == 17 && "has_domain_region"@[0] == 'h',
        "has_domain_topic"@.len() == 16 && "has_domain_topic"@[0] == 'h',
        "is_exemplified_by"@.len() == 17 && "is_exemplified_by"@[0] == 'i' && "is_exemplified_by"@[1] == 's',
        "is_entailed_by"@.len() == 14 && "is_entailed_by"@[0] == 'i',
        "instance_hyponym"@.len() == 16 && "instance_hyponym"@[0] == 'i',
        "holo_member"@.len() == 11 && "holo_member"@[0] == 'h',
        "holo_part"@.len() == 9 && "holo_part"@[0] == 'h',
        "holo_substance"@.len() == 14 && "holo_substance"@[0] == 'h',
{
    reveal_strlit("also");
    reveal_strlit("attribute");
    reveal_strlit("causes");
    reveal_strlit("domain_region");
    reveal_strlit("domain_topic");
    reveal_strlit("exemplifies");
    reveal_strlit("entails");
    reveal_strlit("hypernym");
    reveal_strlit("instance_hypernym");
    reveal_strlit("mero_member");
    reveal_strlit("mero_part");
    reveal_strlit("mero_substance");
    reveal_strlit("similar");
    reveal_strlit("hyponym");
    reveal_strlit("is_caused_by");
    reveal_strlit("has_domain_region");
    reveal_strlit("has_domain_topic");
    reveal_strlit("is_exemplified_by");
    reveal_strlit("is_entailed_by");
    reveal_strlit("instance_hyponym");
    reveal_strlit("holo_member");
    reveal_strlit("holo_part");
    reveal_strlit("holo_substance");
}

proof fn lemma_rel_names_distinct()
    ensures
        forall|i: int, j: int| 0 <= i < 23 && 0 <= j < 23 && i != j
            ==> #[trigger] synset_rel_name(synset_rels()[i]) != #[trigger] synset_rel_name(synset_rels()[j]),
{
    lemma_rel_name_facts();
    assert forall|i: int, j: int| 0 <= i < 23 && 0 <= j < 23 && i != j
        implies synset_rel_name(synset_rels()[i]) != synset_rel_name(synset_rels()[j]) by {
        if i == 0 {
            assert(synset_rel_name(synset_rels()[i]) == "also"@);
        }
        if i == 1 {
            assert(synset_rel_name(synset_rels()[i]) == "attribute"@);
        }
        if i == 2 {
            assert(synset_rel_name(synset_rels()[i]) == "causes"@);
        }
        if i == 3 {
            assert(synset_rel_name(synset_rels()[i]) == "domain_region"@);
        }
        if i == 4 {
            assert(synset_rel_name(synset_rels()[i]) == "domain_topic"@);
        }
        if i == 5 {
            assert(synset_rel_name(synset_rels()[i]) == "exemplifies"@);
        }
        if i == 6 {
            assert(synset_rel_name(synset_rels()[i]) == "entails"@);
        }
        if i == 7 {
            assert(synset_rel_name(synset_rels()[i]) == "hypernym"@);
        }
        if i == 8 {
            assert(synset_rel_name(synset_rels()[i]) == "instance_hypernym"@);
        }
        if i == 9 {
            assert(synset_rel_name(synset_rels()[i]) == "mero_member"@);
        }
        if i == 10 {
            assert(synset_rel_name(synset_rels()[i]) == "mero_part"@);
        }
        if i == 11 {
            assert(synset_rel_name(synset_rels()[i]) == "mero_substance"@);
        }
        if i == 12 {
            assert(synset_rel_name(synset_rels()[i]) == "similar"@);
        }
        if i == 13 {
            assert(synset_rel_name(synset_rels()[i]) == "hyponym"@);
        }
        if i == 14 {
            assert(synset_rel_name(synset_rels()[i]) == "is_caused_by"@);
        }
        if i == 15 {
            assert(synset_rel_name(synset_rels()[i]) == "has_domain_region"@);
        }
        if i == 16 {
            assert(synset_rel_name(synset_rels()[i]) == "has_domain_topic"@);
        }
        if i == 17 {
            assert(synset_rel_name(synset_rels()[i]) == "is_exemplified_by"@);
        }
        if i == 18 {
            assert(synset_rel_name(synset_rels()[i]) == "is_entailed_by"@);
        }
        if i == 19 {
            assert(synset_rel_name(synset_rels()[i]) == "instance_hyponym"@);
        }
        if i == 20 {
            assert(synset_rel_name(synset_rels()[i]) == "holo_member"@);
        }
        if i == 21 {
            assert(synset_rel_name(synset_rels()[i]) == "holo_part"@);
        }
        if i == 22 {
            assert(synset_rel_name(synset_rels()[i]) == "holo_substance"@);
        }
        if j == 0 {
            assert(synset_rel_name(synset_rels()[j]) == "also"@);
        }
        if j == 1 {
            assert(synset_rel_name(synset_rels()[j]) == "attribute"@);
        }
        if j == 2 {
            assert(synset_rel_name(synset_rels()[j]) == "causes"@);
        }
        if j == 3 {
            assert(synset_rel_name(synset_rels()[j]) == "domain_region"@);
        }
        if j == 4 {
            assert(synset_rel_name(synset_rels()[j]) == "domain_topic"@);
        }
        if j == 5 {
            assert(synset_rel_name(synset_rels()[j]) == "exemplifies"@);
        }
        if j == 6 {
            assert(synset_rel_name(synset_rels()[j]) == "entails"@);
        }
        if j == 7 {
            assert(synset_rel_name(synset_rels()[j]) == "hypernym"@);
        }
        if j == 8 {
            assert(synset_rel_name(synset_rels()[j]) == "instance_hypernym"@);
        }
        if j == 9 {
            assert(synset_rel_name(synset_rels()[j]) == "mero_member"@);
        }
        if j == 10 {
            assert(synset_rel_name(synset_rels()[j]) == "mero_part"@);
        }
        if j == 11 {
            assert(synset_rel_name(synset_rels()[j]) == "mero_substance"@);
        }
        if j == 12 {
            assert(synset_rel_name(synset_rels()[j]) == "similar"@);
        }
        if j == 13 {
            assert(synset_rel_name(synset_rels()[j]) == "hyponym"@);
        }
        if j == 14 {
            assert(synset_rel_name(synset_rels()[j]) == "is_caused_by"@);
        }
        if j == 15 {
            assert(synset_rel_name(synset_rels()[j]) == "has_domain_region"@);
        }
        if j == 16 {
            assert(synset_rel_name(synset_rels()[j]) == "has_domain_topic"@);
        }
        if j == 17 {
            assert(synset_rel_name(synset_rels()[j]) == "is_exemplified_by"@);
        }
        if j == 18 {
            assert(synset_rel_name(synset_rels()[j]) == "is_entailed_by"@);
        }
        if j == 19 {
            assert(synset_rel_name(synset_rels()[j]) == "instance_hyponym"@);
        }
        if j == 20 {
            assert(synset_rel_name(synset_rels()[j]) == "holo_member"@);
        }
        if j == 21 {
            assert(synset_rel_name(synset_rels()[j]) == "holo_part"@);
        }
        if j == 22 {
            assert(synset_rel_name(synset_rels()[j]) == "holo_substance"@);
        }
    }
}

proof fn lemma_bag_count_single(bag: Seq<(Seq<char>, nat)>, i: int)
    requires
        0 <= i < bag.len(),
        forall|j: int| 0 <= j < bag.len() && j != i ==> (#[trigger] bag[j]).0 != bag[i].0,
    ensures
        bag_count(bag, bag[i].0) == bag[i].1,
    decreases bag.len(),
{
    let r = bag.drop_last();
    if i < bag.len() - 1 {
        assert forall|j: int| 0 <= j < r.len() && j != i implies (#[trigger] r[j]).0 != r[i].0 by {
            assert(r[j] == bag[j]);
        }
        lemma_bag_count_single(r, i);
        assert(bag.last().0 != bag[i].0);
    } else {
        assert forall|j: int| 0 <= j < r.len() implies (#[trigger] r[j]).0 != bag[i].0 by {
            assert(r[j] == bag[j]);
        }
        lemma_bag_count_absent(r, bag[i].0);
    }
}

proof fn lemma_bag_count_absent(bag: Seq<(Seq<char>, nat)>, k: Seq<char>)
    requires
        forall|j: int| 0 <= j < bag.len() ==> (#[trigger] bag[j]).0 != k,
    ensures
        bag_count(bag, k) == 0,
    decreases bag.len(),
{
    if bag.len() > 0 {
        let r = bag.drop_last();
        assert forall|j: int| 0 <= j < r.len() implies (#[trigger] r[j]).0 != k by {
            assert(r[j] == bag[j]);
        }
        lemma_bag_count_absent(r, k);
    }
}

/// Adds up `f` over the synsets.
pub open spec fn total_over(ss: Seq<Synset>, f: spec_fn(Synset) -> nat) -> nat
    decreases ss.len(),
{
    if ss.len() == 0 {
        0
    } else {
        total_over(ss.drop_last(), f) + f(ss.last())
    }
}

proof fn lemma_field_counted(ss: Seq<Synset>, i: int, f: spec_fn(Synset) -> nat)
    requires
        0 <= i < 23,
        forall|s: Synset| #[trigger] f(s) == synset_rel(s, synset_rels()[i])@.len(),
    ensures
        bag_count(link_bag(ss), synset_rel_name(synset_rels()[i])) == total_over(ss, f),
    decreases ss.len(),
{
    let k = synset_rel_name(synset_rels()[i]);
    if ss.len() > 0 {
        lemma_field_counted(ss.drop_last(), i, f);
        let links = synset_links(ss.last());
        lemma_rel_names_distinct();
        assert forall|j: int| 0 <= j < links.len() && j != i implies (#[trigger] links[j]).0 != links[i].0 by {
            assert(links[j].0 == synset_rel_name(synset_rels()[j]));
        }
        lemma_bag_count_single(links, i);
        lemma_bag_split(link_bag(ss.drop_last()), links);
        assert(f(ss.last()) == synset_rel(ss.last(), synset_rels()[i])@.len());
    }
}

/// Law of the synset statistics: the links of each synset relation field are counted under
/// the field's own name in the data files, e.g. the `mero_member` links under `"mero_member"`:
/// over any synsets, the count under each field name is the number of targets that field holds,
/// summed over the synsets; `synset_stats` reports exactly these counts in `relation_counts`.
pub proof fn law_links_counted_under_field_names(ss: Seq<Synset>)
    ensures
        bag_count(link_bag(ss), "also"@) == total_over(ss, |s: Synset| s.also@.len()),
        bag_count(link_bag(ss), "attribute"@) == total_over(ss, |s: Synset| s.attribute@.len()),
        bag_count(link_bag(ss), "causes"@) == total_over(ss, |s: Synset| s.causes@.len()),
        bag_count(link_bag(ss), "domain_region"@) == total_over(ss, |s: Synset| s.domain_region@.len()),
        bag_count(link_bag(ss), "domain_topic"@) == total_over(ss, |s: Synset| s.domain_topic@.len()),
        bag_count(link_bag(ss), "exemplifies"@) == total_over(ss, |s: Synset| s.exemplifies@.len()),
        bag_count(link_bag(ss), "entails"@) == total_over(ss, |s: Synset| s.entails@.len()),
        bag_count(link_bag(ss), "hypernym"@) == total_over(ss, |s: Synset| s.hypernym@.len()),
        bag_count(link_bag(ss), "instance_hypernym"@) == total_over(ss, |s: Synset| s.instance_hypernym@.len()),
        bag_count(link_bag(ss), "mero_member"@) == total_over(ss, |s: Synset| s.mero_member@.len()),
        bag_count(link_bag(ss), "mero_part"@) == total_over(ss, |s: Synset| s.mero_part@.len()),
        bag_count(link_bag(ss), "mero_substance"@) == total_over(ss, |s: Synset| s.mero_substance@.len()),
        bag_count(link_bag(ss), "similar"@) == total_over(ss, |s: Synset| s.similar@.len()),
        bag_count(link_bag(ss), "hyponym"@) == total_over(ss, |s: Synset| s.hyponym@.len()),
        bag_count(link_bag(ss), "is_caused_by"@) == total_over(ss, |s: Synset| s.is_caused_by@.len()),
        bag_count(link_bag(ss), "has_domain_region"@) == total_over(ss, |s: Synset| s.has_domain_region@.len()),
        bag_count(link_bag(ss), "has_domain_topic"@) == total_over(ss, |s: Synset| s.has_domain_topic@.len()),
        bag_count(link_bag(ss), "is_exemplified_by"@) == total_over(ss, |s: Synset| s.is_exemplified_by@.len()),
        bag_count(link_bag(ss), "is_entailed_by"@) == total_over(ss, |s: Synset| s.is_entailed_by@.len()),
        bag_count(link_bag(ss), "instance_hyponym"@) == total_over(ss, |s: Synset| s.instance_hyponym@.len()),
        bag_count(link_bag(ss), "holo_member"@) == total_over(ss, |s: Synset| s.holo_member@.len()),
        bag_count(link_bag(ss), "holo_part"@) == total_over(ss, |s: Synset| s.holo_part@.len()),
        bag_count(link_bag(ss), "holo_substance"@) == total_over(ss, |s: Synset| s.holo_substance@.len()),
{
    lemma_field_counted(ss, 0, |s: Synset| s.also@.len());
    lemma_field_counted(ss, 1, |s: Synset| s.attribute@.len());
    lemma_field_counted(ss, 2, |s: Synset| s.causes@.len());
    lemma_field_counted(ss, 3, |s: Synset| s.domain_region@.len());
    lemma_field_counted(ss, 4, |s: Synset| s.domain_topic@.len());
    lemma_field_counted(ss, 5, |s: Synset| s.exemplifies@.len());
    lemma_field_counted(ss, 6, |s: Synset| s.entails@.len());
    lemma_field_counted(ss, 7, |s: Synset| s.hypernym@.len());
    lemma_field_counted(ss, 8, |s: Synset| s.instance_hypernym@.len());
    lemma_field_counted(ss, 9, |s: Synset| s.mero_member@.len());
    lemma_field_counted(ss, 10, |s: Synset| s.mero_part@.len());
    lemma_field_counted(ss, 11, |s: Synset| s.mero_substance@.len());
    lemma_field_counted(ss, 12, |s: Synset| s.similar@.len());
    lemma_field_counted(ss, 13, |s: Synset| s.hyponym@.len());
    lemma_field_counted(ss, 14, |s: Synset| s.is_caused_by@.len());
    lemma_field_counted(ss, 15, |s: Synset| s.has_domain_region@.len());
    lemma_field_counted(ss, 16, |s: Synset| s.has_domain_topic@.len());
    lemma_field_counted(ss, 17, |s: Synset| s.is_exemplified_by@.len());
    lemma_field_counted(ss, 18, |s: Synset| s.is_entailed_by@.len());
    lemma_field_counted(ss, 19, |s: Synset| s.instance_hyponym@.len());
    lemma_field_counted(ss, 20, |s: Synset| s.holo_member@.len());
    lemma_field_counted(ss, 21, |s: Synset| s.holo_part@.len());
    lemma_field_counted(ss, 22, |s: Synset| s.holo_substance@.len());
}


proof fn lemma_sense_rel_name_facts()
    ensures
        "antonym"@.len() == 7 && "antonym"@[0] == 'a',
        "also"@.len() == 4 && "also"@[0] == 'a',
        "participle"@.len() == 10 && "participle"@[0] == 'p',
        "pertainym"@.len() == 9 && "pertainym"@[0] == 'p',
        "derivation"@.len() == 10 && "derivation"@[0] == 'd',
        "domain_topic"@.len() == 12 && "domain_topic"@[0] == 'd',
        "has_domain_topic"@.len() == 16 && "has_domain_topic"@[0] == 'h',
        "domain_region"@.len() == 13 && "domain_region"@[0] == 'd',
        "has_domain_region"@.len() == 17 && "has_domain_region"@[0] == 'h',
        "exemplifies"@.len() == 11 && "exemplifies"@[0] == 'e',
        "is_exemplified_by"@.len() == 17 && "is_exemplified_by"@[0] == 'i',
        "similar"@.len() == 7 && "similar"@[0] == 's',
        "other"@.len() == 5 && "other"@[0] == 'o',
        "agent"@.len() == 5 && "agent"@[0] == 'a',
        "material"@.len() == 8 && "material"@[0] == 'm',
        "event"@.len() == 5 && "event"@[0] == 'e',
        "instrument"@.len() == 10 && "instrument"@[0] == 'i',
        "location"@.len() == 8 && "location"@[0] == 'l',
        "by_means_of"@.len() == 11 && "by_means_of"@[0] == 'b',
        "undergoer"@.len() == 9 && "undergoer"@[0] == 'u',
        "property"@.len() == 8 && "property"@[0] == 'p',
        "result"@.len() == 6 && "result"@[0] == 'r',
        "state"@.len() == 5 && "state"@[0] == 's',
        "uses"@.len() == 4 && "uses"@[0] == 'u',
        "destination"@.len() == 11 && "destination"@[0] == 'd',
        "body_part"@.len() == 9 && "body_part"@[0] == 'b',
        "vehicle"@.len() == 7 && "vehicle"@[0] == 'v',
{
    reveal_strlit("antonym");
    reveal_strlit("also");
    reveal_strlit("participle");
    reveal_strlit("pertainym");
    reveal_strlit("derivation");
    reveal_strlit("domain_topic");
    reveal_strlit("has_domain_topic");
    reveal_strlit("domain_region");
    reveal_strlit("has_domain_region");
    reveal_strlit("exemplifies");
    reveal_strlit("is_exemplified_by");
    reveal_strlit("similar");
    reveal_strlit("other");
    reveal_strlit("agent");
    reveal_strlit("material");
    reveal_strlit("event");
    reveal_strlit("instrument");
    reveal_strlit("location");
    reveal_strlit("by_means_of");
    reveal_strlit("undergoer");
    reveal_strlit("property");
    reveal_strlit("result");
    reveal_strlit("state");
    reveal_strlit("uses");
    reveal_strlit("destination");
    reveal_strlit("body_part");
    reveal_strlit("vehicle");
}

proof fn lemma_sense_rel_names_distinct()
    ensures
        forall|i: int, j: int| 0 <= i < 27 && 0 <= j < 27 && i != j
            ==> #[trigger] sense_rel_name(sense_rels()[i]) != #[trigger] sense_rel_name(sense_rels()[j]),
{
    lemma_sense_rel_name_facts();
    assert forall|i: int, j: int| 0 <= i < 27 && 0 <= j < 27 && i != j
        implies sense_rel_name(sense_rels()[i]) != sense_rel_name(sense_rels()[j]) by {
        if i == 0 {
            assert(sense_rel_name(sense_rels()[i]) == "antonym"@);
        }
        if i == 1 {
            assert(sense_rel_name(sense_rels()[i]) == "also"@);
        }
        if i == 2 {
            assert(sense_rel_name(sense_rels()[i]) == "participle"@);
        }
        if i == 3 {
            assert(sense_rel_name(sense_rels()[i]) == "pertainym"@);
        }
        if i == 4 {
            assert(sense_rel_name(sense_rels()[i]) == "derivation"@);
        }
        if i == 5 {
            assert(sense_rel_name(sense_rels()[i]) == "domain_topic"@);
        }
        if i == 6 {
            assert(sense_rel_name(sense_rels()[i]) == "has_domain_topic"@);
        }
        if i == 7 {
            assert(sense_rel_name(sense_rels()[i]) == "domain_region"@);
        }
        if i == 8 {
            assert(sense_rel_name(sense_rels()[i]) == "has_domain_region"@);
        }
        if i == 9 {
            assert(sense_rel_name(sense_rels()[i]) == "exemplifies"@);
        }
        if i == 10 {
            assert(sense_rel_name(sense_rels()[i]) == "is_exemplified_by"@);
        }
        if i == 11 {
            assert(sense_rel_name(sense_rels()[i]) == "similar"@);
        }
        if i == 12 {
            assert(sense_rel_name(sense_rels()[i]) == "other"@);
        }
        if i == 13 {
            assert(sense_rel_name(sense_rels()[i]) == "agent"@);
        }
        if i == 14 {
            assert(sense_rel_name(sense_rels()[i]) == "material"@);
        }
        if i == 15 {
            assert(sense_rel_name(sense_rels()[i]) == "event"@);
        }
        if i == 16 {
            assert(sense_rel_name(sense_rels()[i]) == "instrument"@);
        }
        if i == 17 {
            assert(sense_rel_name(sense_rels()[i]) == "location"@);
        }
        if i == 18 {
            assert(sense_rel_name(sense_rels()[i]) == "by_means_of"@);
        }
        if i == 19 {
            assert(sense_rel_name(sense_rels()[i]) == "undergoer"@);
        }
        if i == 20 {
            assert(sense_rel_name(sense_rels()[i]) == "property"@);
        }
        if i == 21 {
            assert(sense_rel_name(sense_rels()[i]) == "result"@);
        }
        if i == 22 {
            assert(sense_rel_name(sense_rels()[i]) == "state"@);
        }
        if i == 23 {
            assert(sense_rel_name(sense_rels()[i]) == "uses"@);
        }
        if i == 24 {
            assert(sense_rel_name(sense_rels()[i]) == "destination"@);
        }
        if i == 25 {
            assert(sense_rel_name(sense_rels()[i]) == "body_part"@);
        }
        if i == 26 {
            assert(sense_rel_name(sense_rels()[i]) == "vehicle"@);
        }
        if j == 0 {
            assert(sense_rel_name(sense_rels()[j]) == "antonym"@);
        }
        if j == 1 {
            assert(sense_rel_name(sense_rels()[j]) == "also"@);
        }
        if j == 2 {
            assert(sense_rel_name(sense_rels()[j]) == "participle"@);
        }
        if j == 3 {
            assert(sense_rel_name(sense_rels()[j]) == "pertainym"@);
        }
        if j == 4 {
            assert(sense_rel_name(sense_rels()[j]) == "derivation"@);
        }
        if j == 5 {
            assert(sense_rel_name(sense_rels()[j]) == "domain_topic"@);
        }
        if j == 6 {
            assert(sense_rel_name(sense_rels()[j]) == "has_domain_topic"@);
        }
        if j == 7 {
            assert(sense_rel_name(sense_rels()[j]) == "domain_region"@);
        }
        if j == 8 {
            assert(sense_rel_name(sense_rels()[j]) == "has_domain_region"@);
        }
        if j == 9 {
            assert(sense_rel_name(sense_rels()[j]) == "exemplifies"@);
        }
        if j == 10 {
            assert(sense_rel_name(sense_rels()[j]) == "is_exemplified_by"@);
        }
        if j == 11 {
            assert(sense_rel_name(sense_rels()[j]) == "similar"@);
        }
        if j == 12 {
            assert(sense_rel_name(sense_rels()[j]) == "other"@);
        }
        if j == 13 {
            assert(sense_rel_name(sense_rels()[j]) == "agent"@);
        }
        if j == 14 {
            assert(sense_rel_name(sense_rels()[j]) == "material"@);
        }
        if j == 15 {
            assert(sense_rel_name(sense_rels()[j]) == "event"@);
        }
        if j == 16 {
            assert(sense_rel_name(sense_rels()[j]) == "instrument"@);
        }
        if j == 17 {
            assert(sense_rel_name(sense_rels()[j]) == "location"@);
        }
        if j == 18 {
            assert(sense_rel_name(sense_rels()[j]) == "by_means_of"@);
        }
        if j == 19 {
            assert(sense_rel_name(sense_rels()[j]) == "undergoer"@);
        }
        if j == 20 {
            assert(sense_rel_name(sense_rels()[j]) == "property"@);
        }
        if j == 21 {
            assert(sense_rel_name(sense_rels()[j]) == "result"@);
        }
        if j == 22 {
            assert(sense_rel_name(sense_rels()[j]) == "state"@);
        }
        if j == 23 {
            assert(sense_rel_name(sense_rels()[j]) == "uses"@);
        }
        if j == 24 {
            assert(sense_rel_name(sense_rels()[j]) == "destination"@);
        }
        if j == 25 {
            assert(sense_rel_name(sense_rels()[j]) == "body_part"@);
        }
        if j == 26 {
            assert(sense_rel_name(sense_rels()[j]) == "vehicle"@);
        }
    }
}

/// Adds up `f` over the senses.
pub open spec fn senses_total(ss: Seq<Sense>, f: spec_fn(Sense) -> nat) -> nat
    decreases ss.len(),
{
    if ss.len() == 0 {
        0
    } else {
        senses_total(ss.drop_last(), f) + f(ss.last())
    }
}

/// Adds up `f` over the senses of the entries.
pub open spec fn entries_total(es: Seq<(PosKey, Entry)>, f: spec_fn(Sense) -> nat) -> nat
    decreases es.len(),
{
    if es.len() == 0 {
        0
    } else {
        entries_total(es.drop_last(), f) + senses_total(es.last().1.sense@, f)
    }
}

proof fn lemma_sense_field_counted(ss: Seq<Sense>, i: int, f: spec_fn(Sense) -> nat)
    requires
        0 <= i < 27,
        forall|s: Sense| #[trigger] f(s) == sense_rel_field(s, sense_rels()[i])@.len(),
    ensures
        bag_count(senses_links(ss), sense_rel_name(sense_rels()[i])) == senses_total(ss, f),
    decreases ss.len(),
{
    if ss.len() > 0 {
        lemma_sense_field_counted(ss.drop_last(), i, f);
        let links = sense_links(ss.last());
        lemma_sense_rel_names_distinct();
        assert forall|j: int| 0 <= j < links.len() && j != i implies (#[trigger] links[j]).0 != links[i].0 by {
            assert(links[j].0 == sense_rel_name(sense_rels()[j]));
        }
        lemma_bag_count_single(links, i);
        lemma_bag_split(senses_links(ss.drop_last()), links);
        assert(f(ss.last()) == sense_rel_field(ss.last(), sense_rels()[i])@.len());
    }
}

proof fn lemma_sense_field_counted_entries(es: Seq<(PosKey, Entry)>, i: int, f: spec_fn(Sense) -> nat)
    requires
        0 <= i < 27,
        forall|s: Sense| #[trigger] f(s) == sense_rel_field(s, sense_rels()[i])@.len(),
    ensures
        bag_count(entry_link_bag(es), sense_rel_name(sense_rels()[i])) == entries_total(es, f),
    decreases es.len(),
{
    if es.len() > 0 {
        lemma_sense_field_counted_entries(es.drop_last(), i, f);
        lemma_sense_field_counted(es.last().1.sense@, i, f);
        lemma_bag_split(entry_link_bag(es.drop_last()), senses_links(es.last().1.sense@));
    }
}

/// Law of the entry statistics: the links of each sense relation field are counted under the
/// field's own name in the data files, e.g. the `antonym` links under `"antonym"`: over any
/// entries, the count under each field name is the number of targets that field holds, summed
/// over the senses of the entries; `entry_stats` reports exactly these counts in
/// `relation_counts`.
pub proof fn law_sense_links_counted_under_field_names(es: Seq<(PosKey, Entry)>)
    ensures
        bag_count(entry_link_bag(es), "antonym"@) == entries_total(es, |s: Sense| s.antonym@.len()),
        bag_count(entry_link_bag(es), "also"@) == entries_total(es, |s: Sense| s.also@.len()),
        bag_count(entry_link_bag(es), "participle"@) == entries_total(es, |s: Sense| s.participle@.len()),
        bag_count(entry_link_bag(es), "pertainym"@) == entries_total(es, |s: Sense| s.pertainym@.len()),
        bag_count(entry_link_bag(es), "derivation"@) == entries_total(es, |s: Sense| s.derivation@.len()),
        bag_count(entry_link_bag(es), "domain_topic"@) == entries_total(es, |s: Sense| s.domain_topic@.len()),
        bag_count(entry_link_bag(es), "has_domain_topic"@) == entries_total(es, |s: Sense| s.has_domain_topic@.len()),
        bag_count(entry_link_bag(es), "domain_region"@) == entries_total(es, |s: Sense| s.domain_region@.len()),
        bag_count(entry_link_bag(es), "has_domain_region"@) == entries_total(es, |s: Sense| s.has_domain_region@.len()),
        bag_count(entry_link_bag(es), "exemplifies"@) == entries_total(es, |s: Sense| s.exemplifies@.len()),
        bag_count(entry_link_bag(es), "is_exemplified_by"@) == entries_total(es, |s: Sense| s.is_exemplified_by@.len()),
        bag_count(entry_link_bag(es), "similar"@) == entries_total(es, |s: Sense| s.similar@.len()),
        bag_count(entry_link_bag(es), "other"@) == entries_total(es, |s: Sense| s.other@.len()),
        bag_count(entry_link_bag(es), "agent"@) == entries_total(es, |s: Sense| s.agent@.len()),
        bag_count(entry_link_bag(es), "material"@) == entries_total(es, |s: Sense| s.material@.len()),
        bag_count(entry_link_bag(es), "event"@) == entries_total(es, |s: Sense| s.event@.len()),
        bag_count(entry_link_bag(es), "instrument"@) == entries_total(es, |s: Sense| s.instrument@.len()),
        bag_count(entry_link_bag(es), "location"@) == entries_total(es, |s: Sense| s.location@.len()),
        bag_count(entry_link_bag(es), "by_means_of"@) == entries_total(es, |s: Sense| s.by_means_of@.len()),
        bag_count(entry_link_bag(es), "undergoer"@) == entries_total(es, |s: Sense| s.undergoer@.len()),
        bag_count(entry_link_bag(es), "property"@) == entries_total(es, |s: Sense| s.property@.len()),
        bag_count(entry_link_bag(es), "result"@) == entries_total(es, |s: Sense| s.result@.len()),
        bag_count(entry_link_bag(es), "state"@) == entries_total(es, |s: Sense| s.state@.len()),
        bag_count(entry_link_bag(es), "uses"@) == entries_total(es, |s: Sense| s.uses@.len()),
        bag_count(entry_link_bag(es), "destination"@) == entries_total(es, |s: Sense| s.destination@.len()),
        bag_count(entry_link_bag(es), "body_part"@) == entries_total(es, |s: Sense| s.body_part@.len()),
        bag_count(entry_link_bag(es), "vehicle"@) == entries_total(es, |s: Sense| s.vehicle@.len()),
{
    lemma_sense_field_counted_entries(es, 0, |s: Sense| s.antonym@.len());
    lemma_sense_field_counted_entries(es, 1, |s: Sense| s.also@.len());
    lemma_sense_field_counted_entries(es, 2, |s: Sense| s.participle@.len());
    lemma_sense_field_counted_entries(es, 3, |s: Sense| s.pertainym@.len());
    lemma_sense_field_counted_entries(es, 4, |s: Sense| s.derivation@.len());
    lemma_sense_field_counted_entries(es, 5, |s: Sense| s.domain_topic@.len());
    lemma_sense_field_counted_entries(es, 6, |s: Sense| s.has_domain_topic@.len());
    lemma_sense_field_counted_entries(es, 7, |s: Sense| s.domain_region@.len());
    lemma_sense_field_counted_entries(es, 8, |s: Sense| s.has_domain_region@.len());
    lemma_sense_field_counted_entries(es, 9, |s: Sense| s.exemplifies@.len());
    lemma_sense_field_counted_entries(es, 10, |s: Sense| s.is_exemplified_by@.len());
    lemma_sense_field_counted_entries(es, 11, |s: Sense| s.similar@.len());
    lemma_sense_field_counted_entries(es, 12, |s: Sense| s.other@.len());
    lemma_sense_field_counted_entries(es, 13, |s: Sense| s.agent@.len());
    lemma_sense_field_counted_entries(es, 14, |s: Sense| s.material@.len());
    lemma_sense_field_counted_entries(es, 15, |s: Sense| s.event@.len());
    lemma_sense_field_counted_entries(es, 16, |s: Sense| s.instrument@.len());
    lemma_sense_field_counted_entries(es, 17, |s: Sense| s.location@.len());
    lemma_sense_field_counted_entries(es, 18, |s: Sense| s.by_means_of@.len());
    lemma_sense_field_counted_entries(es, 19, |s: Sense| s.undergoer@.len());
    lemma_sense_field_counted_entries(es, 20, |s: Sense| s.property@.len());
    lemma_sense_field_counted_entries(es, 21, |s: Sense| s.result@.len());
    lemma_sense_field_counted_entries(es, 22, |s: Sense| s.state@.len());
    lemma_sense_field_counted_entries(es, 23, |s: Sense| s.uses@.len());
    lemma_sense_field_counted_entries(es, 24, |s: Sense| s.destination@.len());
    lemma_sense_field_counted_entries(es, 25, |s: Sense| s.body_part@.len());
    lemma_sense_field_counted_entries(es, 26, |s: Sense| s.vehicle@.len());
}

} // verus!
