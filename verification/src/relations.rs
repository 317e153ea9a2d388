//! The relation types the editor offers, and how each is stored.
//!
//! About half of the synset relations shown are computed by reverse lookup rather than stored
//! (a synset's `hyponym`s are the synsets that name it as their `hypernym`). Adding one of those
//! means storing the inverse relation with source and target swapped; `store_as` and `swapped`
//! record that.

use vstd::prelude::*;
use crate::text::{str_eq, strip_prefix};
use crate::model::SynsetRel;
use crate::links::inverse_of;
use crate::stats::synset_rel_name;

verus! {

/// A relation type offered by the editor.
#[derive(Clone, Copy, PartialEq, Debug)]
pub struct RelationTypeInfo {
    /// The field name as shown in the read-only view and used to key pending changes.
    pub key: &'static str,
    pub label: &'static str,
    pub is_sense: bool,
    /// The relation to actually store; differs from `key` for reverse-computed fields.
    pub store_as: &'static str,
    /// Adding this relation swaps source and target, because `store_as` is the inverse type.
    pub swapped: bool,
}

/// A synset relation stored as itself.
pub open spec fn forward_info(key: &'static str, label: &'static str) -> RelationTypeInfo {
    RelationTypeInfo { key, label, is_sense: false, store_as: key, swapped: false }
}

/// A synset relation stored as its inverse `store_as`, with source and target swapped.
pub open spec fn inverse_info(key: &'static str, label: &'static str, store_as: &'static str) -> RelationTypeInfo {
    RelationTypeInfo { key, label, is_sense: false, store_as, swapped: true }
}

/// A sense relation stored as itself.
pub open spec fn sense_forward_info(key: &'static str, label: &'static str) -> RelationTypeInfo {
    RelationTypeInfo { key, label, is_sense: true, store_as: key, swapped: false }
}

/// A sense relation stored as its inverse `store_as`, with source and target swapped.
pub open spec fn sense_inverse_info(key: &'static str, label: &'static str, store_as: &'static str) -> RelationTypeInfo {
    RelationTypeInfo { key, label, is_sense: true, store_as, swapped: true }
}

/// A synset relation stored as itself.
pub fn forward(key: &'static str, label: &'static str) -> (r: RelationTypeInfo)
    ensures
        r == forward_info(key, label),
{
    RelationTypeInfo { key, label, is_sense: false, store_as: key, swapped: false }
}

/// A synset relation stored as its inverse `store_as`.
pub fn inverse(key: &'static str, label: &'static str, store_as: &'static str) -> (r: RelationTypeInfo)
    ensures
        r == inverse_info(key, label, store_as),
{
    RelationTypeInfo { key, label, is_sense: false, store_as, swapped: true }
}

/// A sense relation stored as itself.
pub fn sense_forward(key: &'static str, label: &'static str) -> (r: RelationTypeInfo)
    ensures
        r == sense_forward_info(key, label),
{
    RelationTypeInfo { key, label, is_sense: true, store_as: key, swapped: false }
}

/// A sense relation stored as its inverse `store_as`.
pub fn sense_inverse(key: &'static str, label: &'static str, store_as: &'static str) -> (r: RelationTypeInfo)
    ensures
        r == sense_inverse_info(key, label, store_as),
{
    RelationTypeInfo { key, label, is_sense: true, store_as, swapped: true }
}

/// The synset relation types, in display order.
pub open spec fn synset_relation_table() -> Seq<RelationTypeInfo> {
    seq![
        forward_info("hypernym", "Hypernym"),
        inverse_info("hyponym", "Hyponym", "hypernym"),
        forward_info("instance_hypernym", "Instance Of"),
        inverse_info("instance_hyponym", "Has Instance", "instance_hypernym"),
        forward_info("attribute", "Attribute"),
        forward_info("causes", "Causes"),
        inverse_info("is_caused_by", "Is Caused By", "causes"),
        forward_info("domain_region", "Used in Region"),
        inverse_info("has_domain_region", "Used in this Region", "domain_region"),
        forward_info("domain_topic", "Subject"),
        inverse_info("has_domain_topic", "Is a Subject of", "domain_topic"),
        forward_info("exemplifies", "Is an Example Of"),
        inverse_info("is_exemplified_by", "Has Example", "exemplifies"),
        forward_info("entails", "Entails"),
        inverse_info("is_entailed_by", "Is Entailed By", "entails"),
        forward_info("mero_location", "Is Located At"),
        inverse_info("holo_location", "Location Of", "mero_location"),
        inverse_info("holo_member", "Is Member Of", "mero_member"),
        forward_info("mero_member", "Has Member"),
        inverse_info("holo_part", "Is Part Of", "mero_part"),
        forward_info("mero_part", "Has Part"),
        inverse_info("holo_substance", "Is Made Of", "mero_substance"),
        forward_info("mero_substance", "Makes"),
        forward_info("meronym", "Meronym"),
        inverse_info("holonym", "Holonym", "meronym"),
        forward_info("similar", "Similar To"),
        forward_info("feminine", "Feminine Form"),
        forward_info("masculine", "Masculine Form"),
        forward_info("also", "See Also"),
        forward_info("other", "Other Related Synsets"),
    ]
}

/// The sense relation types, in display order.
pub open spec fn sense_relation_table() -> Seq<RelationTypeInfo> {
    seq![
        sense_forward_info("antonym", "Antonym"),
        sense_forward_info("participle", "Participle"),
        sense_forward_info("pertainym", "Of or Pertaining To"),
        sense_forward_info("derivation", "Derived From"),
        sense_forward_info("exemplifies_sense", "Is an Example Of"),
        sense_inverse_info("is_exemplified_by_sense", "Has Example", "exemplifies_sense"),
        sense_forward_info("agent", "Agent"),
        sense_forward_info("material", "Material"),
        sense_forward_info("event", "Event"),
        sense_forward_info("instrument", "Instrument"),
        sense_forward_info("location", "Location"),
        sense_forward_info("by_means_of", "By Means Of"),
        sense_forward_info("undergoer", "Undergoer"),
        sense_forward_info("property", "Property"),
        sense_forward_info("result", "Result"),
        sense_forward_info("state", "State"),
        sense_forward_info("uses", "Uses"),
        sense_forward_info("destination", "Destination"),
        sense_forward_info("body_part", "Body Part"),
        sense_forward_info("vehicle", "Vehicle"),
    ]
}

/// The synset relation types, in display order.
pub fn synset_relation_types() -> (r: Vec<RelationTypeInfo>)
    ensures
        r@ == synset_relation_table(),
{
    let r = vec![
        forward("hypernym", "Hypernym"),
        inverse("hyponym", "Hyponym", "hypernym"),
        forward("instance_hypernym", "Instance Of"),
        inverse("instance_hyponym", "Has Instance", "instance_hypernym"),
        forward("attribute", "Attribute"),
        forward("causes", "Causes"),
        inverse("is_caused_by", "Is Caused By", "causes"),
        forward("domain_region", "Used in Region"),
        inverse("has_domain_region", "Used in this Region", "domain_region"),
        forward("domain_topic", "Subject"),
        inverse("has_domain_topic", "Is a Subject of", "domain_topic"),
        forward("exemplifies", "Is an Example Of"),
        inverse("is_exemplified_by", "Has Example", "exemplifies"),
        forward("entails", "Entails"),
        inverse("is_entailed_by", "Is Entailed By", "entails"),
        forward("mero_location", "Is Located At"),
        inverse("holo_location", "Location Of", "mero_location"),
        inverse("holo_member", "Is Member Of", "mero_member"),
        forward("mero_member", "Has Member"),
        inverse("holo_part", "Is Part Of", "mero_part"),
        forward("mero_part", "Has Part"),
        inverse("holo_substance", "Is Made Of", "mero_substance"),
        forward("mero_substance", "Makes"),
        forward("meronym", "Meronym"),
        inverse("holonym", "Holonym", "meronym"),
        forward("similar", "Similar To"),
        forward("feminine", "Feminine Form"),
        forward("masculine", "Masculine Form"),
        forward("also", "See Also"),
        forward("other", "Other Related Synsets"),
    ];
    assert(r@ =~= synset_relation_table());
    r
}

/// The sense relation types, in display order.
pub fn sense_relation_types() -> (r: Vec<RelationTypeInfo>)
    ensures
        r@ == sense_relation_table(),
{
    let r = vec![
        sense_forward("antonym", "Antonym"),
        sense_forward("participle", "Participle"),
        sense_forward("pertainym", "Of or Pertaining To"),
        sense_forward("derivation", "Derived From"),
        sense_forward("exemplifies_sense", "Is an Example Of"),
        sense_inverse("is_exemplified_by_sense", "Has Example", "exemplifies_sense"),
        sense_forward("agent", "Agent"),
        sense_forward("material", "Material"),
        sense_forward("event", "Event"),
        sense_forward("instrument", "Instrument"),
        sense_forward("location", "Location"),
        sense_forward("by_means_of", "By Means Of"),
        sense_forward("undergoer", "Undergoer"),
        sense_forward("property", "Property"),
        sense_forward("result", "Result"),
        sense_forward("state", "State"),
        sense_forward("uses", "Uses"),
        sense_forward("destination", "Destination"),
        sense_forward("body_part", "Body Part"),
        sense_forward("vehicle", "Vehicle"),
    ];
    assert(r@ =~= sense_relation_table());
    r
}

/// The first relation type of `t` whose key is `k`.
pub open spec fn first_with_key(t: Seq<RelationTypeInfo>, k: Seq<char>) -> Option<RelationTypeInfo>
    decreases t.len(),
{
    if t.len() == 0 {
        None
    } else if t[0].key@ == k {
        Some(t[0])
    } else {
        first_with_key(t.drop_first(), k)
    }
}

fn find_by_key(t: &Vec<RelationTypeInfo>, k: &str) -> (r: Option<RelationTypeInfo>)
    ensures
        r == first_with_key(t@, k@),
{
    let mut i: usize = 0;
    assert(t@.skip(0) =~= t@);
    while i < t.len()
        invariant
            i <= t.len(),
            first_with_key(t@, k@) == first_with_key(t@.skip(i as int), k@),
        decreases t.len() - i,
    {
        assert(t@.skip(i as int).drop_first() =~= t@.skip(i + 1));
        if str_eq(t[i].key, k) {
            return Some(t[i]);
        }
        i += 1;
    }
    None
}

/// The relation type named by a picker value: `syn:` or `sense:` followed by the key.
pub open spec fn relation_type_for(encoded: Seq<char>) -> Option<RelationTypeInfo> {
    if "syn:"@.len() <= encoded.len() && encoded.subrange(0, "syn:"@.len() as int) == "syn:"@ {
        first_with_key(synset_relation_table(), encoded.skip("syn:"@.len() as int))
    } else if "sense:"@.len() <= encoded.len() && encoded.subrange(0, "sense:"@.len() as int) == "sense:"@ {
        first_with_key(sense_relation_table(), encoded.skip("sense:"@.len() as int))
    } else {
        None
    }
}

/// The relation type named by a picker value such as `syn:hypernym` or `sense:antonym`.
pub fn find_relation_type(encoded: &str) -> (r: Option<RelationTypeInfo>)
    ensures
        r == relation_type_for(encoded@),
{
    if let Some(key) = strip_prefix(encoded, "syn:") {
        find_by_key(&synset_relation_types(), key.as_str())
    } else if let Some(key) = strip_prefix(encoded, "sense:") {
        find_by_key(&sense_relation_types(), key.as_str())
    } else {
        None
    }
}


/// Law of the relation tables: every type that is stored as its inverse is stored as a type
/// that the same table offers in its own right, and every other type is stored as itself.
pub proof fn law_relation_types_store_offered_types()
    ensures
        forall|i: int| #![trigger synset_relation_table()[i]] 0 <= i < synset_relation_table().len() ==> {
            let t = synset_relation_table();
            &&& !t[i].is_sense
            &&& !t[i].swapped ==> t[i].store_as == t[i].key
            &&& t[i].swapped ==> exists|j: int| 0 <= j < t.len() && !t[j].swapped && t[j].key == t[i].store_as
        },
        forall|i: int| #![trigger sense_relation_table()[i]] 0 <= i < sense_relation_table().len() ==> {
            let t = sense_relation_table();
            &&& t[i].is_sense
            &&& !t[i].swapped ==> t[i].store_as == t[i].key
            &&& t[i].swapped ==> exists|j: int| 0 <= j < t.len() && !t[j].swapped && t[j].key == t[i].store_as
        },
{
    let t = synset_relation_table();
    assert forall|i: int| 0 <= i < t.len() && t[i].swapped implies exists|j: int| 0 <= j < t.len() && !t[j].swapped && t[j].key == t[i].store_as by {
        if i == 1 {
            assert(t[0].key == t[i].store_as && !t[0].swapped);
        }
        if i == 3 {
            assert(t[2].key == t[i].store_as && !t[2].swapped);
        }
        if i == 6 {
            assert(t[5].key == t[i].store_as && !t[5].swapped);
        }
        if i == 8 {
            assert(t[7].key == t[i].store_as && !t[7].swapped);
        }
        if i == 10 {
            assert(t[9].key == t[i].store_as && !t[9].swapped);
        }
        if i == 12 {
            assert(t[11].key == t[i].store_as && !t[11].swapped);
        }
        if i == 14 {
            assert(t[13].key == t[i].store_as && !t[13].swapped);
        }
        if i == 16 {
            assert(t[15].key == t[i].store_as && !t[15].swapped);
        }
        if i == 17 {
            assert(t[18].key == t[i].store_as && !t[18].swapped);
        }
        if i == 19 {
            assert(t[20].key == t[i].store_as && !t[20].swapped);
        }
        if i == 21 {
            assert(t[22].key == t[i].store_as && !t[22].swapped);
        }
        if i == 24 {
            assert(t[23].key == t[i].store_as && !t[23].swapped);
        }
    }
    let t = sense_relation_table();
    assert forall|i: int| 0 <= i < t.len() && t[i].swapped implies exists|j: int| 0 <= j < t.len() && !t[j].swapped && t[j].key == t[i].store_as by {
        if i == 5 {
            assert(t[4].key == t[i].store_as && !t[4].swapped);
        }
    }
}


/// Law of the relation tables, on swapping: a type is stored with source and target swapped
/// exactly when it is stored under another type's name.
pub proof fn law_relation_types_swap_iff_renamed()
    ensures
        forall|i: int| #![trigger synset_relation_table()[i]] 0 <= i < synset_relation_table().len() ==>
            (synset_relation_table()[i].swapped <==> synset_relation_table()[i].store_as@ != synset_relation_table()[i].key@),
        forall|i: int| #![trigger sense_relation_table()[i]] 0 <= i < sense_relation_table().len() ==>
            (sense_relation_table()[i].swapped <==> sense_relation_table()[i].store_as@ != sense_relation_table()[i].key@),
{
    let t = synset_relation_table();
    assert forall|i: int| 0 <= i < t.len() && t[i].swapped implies t[i].store_as@ != t[i].key@ by {
        if i == 1 {
            reveal_strlit("hyponym");
            reveal_strlit("hypernym");
            assert(t[i].key@.len() != t[i].store_as@.len() || t[i].key@[0] != t[i].store_as@[0]);
        }
        if i == 3 {
            reveal_strlit("instance_hyponym");
            reveal_strlit("instance_hypernym");
            assert(t[i].key@.len() != t[i].store_as@.len() || t[i].key@[0] != t[i].store_as@[0]);
        }
        if i == 6 {
            reveal_strlit("is_caused_by");
            reveal_strlit("causes");
            assert(t[i].key@.len() != t[i].store_as@.len() || t[i].key@[0] != t[i].store_as@[0]);
        }
        if i == 8 {
            reveal_strlit("has_domain_region");
            reveal_strlit("domain_region");
            assert(t[i].key@.len() != t[i].store_as@.len() || t[i].key@[0] != t[i].store_as@[0]);
        }
        if i == 10 {
            reveal_strlit("has_domain_topic");
            reveal_strlit("domain_topic");
            assert(t[i].key@.len() != t[i].store_as@.len() || t[i].key@[0] != t[i].store_as@[0]);
        }
        if i == 12 {
            reveal_strlit("is_exemplified_by");
            reveal_strlit("exemplifies");
            assert(t[i].key@.len() != t[i].store_as@.len() || t[i].key@[0] != t[i].store_as@[0]);
        }
        if i == 14 {
            reveal_strlit("is_entailed_by");
            reveal_strlit("entails");
            assert(t[i].key@.len() != t[i].store_as@.len() || t[i].key@[0] != t[i].store_as@[0]);
        }
        if i == 16 {
            reveal_strlit("holo_location");
            reveal_strlit("mero_location");
            assert(t[i].key@.len() != t[i].store_as@.len() || t[i].key@[0] != t[i].store_as@[0]);
        }
        if i == 17 {
            reveal_strlit("holo_member");
            reveal_strlit("mero_member");
            assert(t[i].key@.len() != t[i].store_as@.len() || t[i].key@[0] != t[i].store_as@[0]);
        }
        if i == 19 {
            reveal_strlit("holo_part");
            reveal_strlit("mero_part");
            assert(t[i].key@.len() != t[i].store_as@.len() || t[i].key@[0] != t[i].store_as@[0]);
        }
        if i == 21 {
            reveal_strlit("holo_substance");
            reveal_strlit("mero_substance");
            assert(t[i].key@.len() != t[i].store_as@.len() || t[i].key@[0] != t[i].store_as@[0]);
        }
        if i == 24 {
            reveal_strlit("holonym");
            reveal_strlit("meronym");
            assert(t[i].key@.len() != t[i].store_as@.len() || t[i].key@[0] != t[i].store_as@[0]);
        }
    }
    let t = sense_relation_table();
    assert forall|i: int| 0 <= i < t.len() && t[i].swapped implies t[i].store_as@ != t[i].key@ by {
        if i == 5 {
            reveal_strlit("is_exemplified_by_sense");
            reveal_strlit("exemplifies_sense");
            assert(t[i].key@.len() != t[i].store_as@.len() || t[i].key@[0] != t[i].store_as@[0]);
        }
    }
}


proof fn lemma_syn_key_facts()
    ensures
        "hypernym"@.len() == 8 && "hypernym"@[0] == 'h',
        "hyponym"@.len() == 7 && "hyponym"@[0] == 'h' && "hyponym"@[1] == 'y',
        "instance_hypernym"@.len() == 17 && "instance_hypernym"@[0] == 'i' && "instance_hypernym"@[1] == 'n',
        "instance_hyponym"@.len() == 16 && "instance_hyponym"@[0] == 'i',
        "attribute"@.len() == 9 && "attribute"@[0] == 'a',
        "causes"@.len() == 6 && "causes"@[0] == 'c',
        "is_caused_by"@.len() == 12 && "is_caused_by"@[0] == 'i',
        "domain_region"@.len() == 13 && "domain_region"@[0] == 'd',
        "has_domain_region"@.len() == 17 && "has_domain_region"@[0] == 'h',
        "domain_topic"@.len() == 12 && "domain_topic"@[0] == 'd',
        "has_domain_topic"@.len() == 16 && "has_domain_topic"@[0] == 'h',
        "exemplifies"@.len() == 11 && "exemplifies"@[0] == 'e',
        "is_exemplified_by"@.len() == 17 && "is_exemplified_by"@[0] == 'i' && "is_exemplified_by"@[1] == 's',
        "entails"@.len() == 7 && "entails"@[0] == 'e',
        "is_entailed_by"@.len() == 14 && "is_entailed_by"@[0] == 'i',
        "mero_location"@.len() == 13 && "mero_location"@[0] == 'm',
        "holo_location"@.len() == 13 && "holo_location"@[0] == 'h',
        "holo_member"@.len() == 11 && "holo_member"@[0] == 'h',
        "mero_member"@.len() == 11 && "mero_member"@[0] == 'm',
        "holo_part"@.len() == 9 && "holo_part"@[0] == 'h',
        "mero_part"@.len() == 9 && "mero_part"@[0] == 'm' && "mero_part"@[1] == 'e',
        "holo_substance"@.len() == 14 && "holo_substance"@[0] == 'h',
        "mero_substance"@.len() == 14 && "mero_substance"@[0] == 'm',
        "meronym"@.len() == 7 && "meronym"@[0] == 'm',
        "holonym"@.len() == 7 && "holonym"@[0] == 'h' && "holonym"@[1] == 'o',
        "similar"@.len() == 7 && "similar"@[0] == 's',
        "feminine"@.len() == 8 && "feminine"@[0] == 'f',
        "masculine"@.len() == 9 && "masculine"@[0] == 'm' && "masculine"@[1] == 'a',
        "also"@.len() == 4 && "also"@[0] == 'a',
        "other"@.len() == 5 && "other"@[0] == 'o',
{
    reveal_strlit("hypernym");
    reveal_strlit("hyponym");
    reveal_strlit("instance_hypernym");
    reveal_strlit("instance_hyponym");
    reveal_strlit("attribute");
    reveal_strlit("causes");
    reveal_strlit("is_caused_by");
    reveal_strlit("domain_region");
    reveal_strlit("has_domain_region");
    reveal_strlit("domain_topic");
    reveal_strlit("has_domain_topic");
    reveal_strlit("exemplifies");
    reveal_strlit("is_exemplified_by");
    reveal_strlit("entails");
    reveal_strlit("is_entailed_by");
    reveal_strlit("mero_location");
    reveal_strlit("holo_location");
    reveal_strlit("holo_member");
    reveal_strlit("mero_member");
    reveal_strlit("holo_part");
    reveal_strlit("mero_part");
    reveal_strlit("holo_substance");
    reveal_strlit("mero_substance");
    reveal_strlit("meronym");
    reveal_strlit("holonym");
    reveal_strlit("similar");
    reveal_strlit("feminine");
    reveal_strlit("masculine");
    reveal_strlit("also");
    reveal_strlit("other");
}

proof fn lemma_first_with_key_at(t: Seq<RelationTypeInfo>, k: Seq<char>, i: int)
    requires
        0 <= i < t.len(),
        t[i].key@ == k,
        forall|j: int| 0 <= j < i ==> (#[trigger] t[j]).key@ != k,
    ensures
        first_with_key(t, k) == Some(t[i]),
    decreases i,
{
    if i > 0 {
        let r = t.drop_first();
        assert forall|j: int| 0 <= j < i - 1 implies (#[trigger] r[j]).key@ != k by {
            assert(r[j] == t[j + 1]);
        }
        assert(t[0].key@ != k);
        lemma_first_with_key_at(r, k, i - 1);
    }
}

proof fn lemma_syn_key_found(k: Seq<char>, i: int)
    requires
        0 <= i < synset_relation_table().len(),
        synset_relation_table()[i].key@ == k,
    ensures
        relation_type_for("syn:"@ + k) == Some(synset_relation_table()[i]),
{
    let t = synset_relation_table();
    reveal_strlit("syn:");
    lemma_syn_key_facts();
    assert forall|j: int| 0 <= j < i implies (#[trigger] t[j]).key@ != k by {
        if j == 0 {
            assert(t[j].key@ == "hypernym"@);
        }
        if j == 1 {
            assert(t[j].key@ == "hyponym"@);
        }
        if j == 2 {
            assert(t[j].key@ == "instance_hypernym"@);
        }
        if j == 3 {
            assert(t[j].key@ == "instance_hyponym"@);
        }
        if j == 4 {
            assert(t[j].key@ == "attribute"@);
        }
        if j == 5 {
            assert(t[j].key@ == "causes"@);
        }
        if j == 6 {
            assert(t[j].key@ == "is_caused_by"@);
        }
        if j == 7 {
            assert(t[j].key@ == "domain_region"@);
        }
        if j == 8 {
            assert(t[j].key@ == "has_domain_region"@);
        }
        if j == 9 {
            assert(t[j].key@ == "domain_topic"@);
        }
        if j == 10 {
            assert(t[j].key@ == "has_domain_topic"@);
        }
        if j == 11 {
            assert(t[j].key@ == "exemplifies"@);
        }
        if j == 12 {
            assert(t[j].key@ == "is_exemplified_by"@);
        }
        if j == 13 {
            assert(t[j].key@ == "entails"@);
        }
        if j == 14 {
            assert(t[j].key@ == "is_entailed_by"@);
        }
        if j == 15 {
            assert(t[j].key@ == "mero_location"@);
        }
        if j == 16 {
            assert(t[j].key@ == "holo_location"@);
        }
        if j == 17 {
            assert(t[j].key@ == "holo_member"@);
        }
        if j == 18 {
            assert(t[j].key@ == "mero_member"@);
        }
        if j == 19 {
            assert(t[j].key@ == "holo_part"@);
        }
        if j == 20 {
            assert(t[j].key@ == "mero_part"@);
        }
        if j == 21 {
            assert(t[j].key@ == "holo_substance"@);
        }
        if j == 22 {
            assert(t[j].key@ == "mero_substance"@);
        }
        if j == 23 {
            assert(t[j].key@ == "meronym"@);
        }
        if j == 24 {
            assert(t[j].key@ == "holonym"@);
        }
        if j == 25 {
            assert(t[j].key@ == "similar"@);
        }
        if j == 26 {
            assert(t[j].key@ == "feminine"@);
        }
        if j == 27 {
            assert(t[j].key@ == "masculine"@);
        }
        if j == 28 {
            assert(t[j].key@ == "also"@);
        }
        if j == 29 {
            assert(t[j].key@ == "other"@);
        }
    }
    lemma_first_with_key_at(t, k, i);
    assert(("syn:"@ + k).subrange(0, 4) =~= "syn:"@);
    assert(("syn:"@ + k).skip(4) =~= k);
}

/// Law of the relation tables against load-time inference: every synset field that the
/// reverse links fill (hyponym, instance hyponym, the holonyms, is caused by, is exemplified
/// by, is entailed by) is offered as a type stored swapped under the field it mirrors, and
/// that mirrored field is offered as itself, unswapped.
pub proof fn law_reverse_fields_offered_swapped(q: SynsetRel)
    requires
        inverse_of(q) is Some,
    ensures
        relation_type_for("syn:"@ + synset_rel_name(q)) matches Some(t) && t.key@ == synset_rel_name(q) && !t.is_sense
            && t.swapped && t.store_as@ == synset_rel_name(inverse_of(q)->0),
        relation_type_for("syn:"@ + synset_rel_name(inverse_of(q)->0)) matches Some(t)
            && t.key@ == synset_rel_name(inverse_of(q)->0) && !t.is_sense && !t.swapped
            && t.store_as@ == synset_rel_name(inverse_of(q)->0),
{
    match q {
        SynsetRel::HoloMember => {
            lemma_syn_key_found("holo_member"@, 17);
            lemma_syn_key_found("mero_member"@, 18);
        },
        SynsetRel::HoloPart => {
            lemma_syn_key_found("holo_part"@, 19);
            lemma_syn_key_found("mero_part"@, 20);
        },
        SynsetRel::HoloSubstance => {
            lemma_syn_key_found("holo_substance"@, 21);
            lemma_syn_key_found("mero_substance"@, 22);
        },
        SynsetRel::Hyponym => {
            lemma_syn_key_found("hyponym"@, 1);
            lemma_syn_key_found("hypernym"@, 0);
        },
        SynsetRel::InstanceHyponym => {
            lemma_syn_key_found("instance_hyponym"@, 3);
            lemma_syn_key_found("instance_hypernym"@, 2);
        },
        SynsetRel::IsCausedBy => {
            lemma_syn_key_found("is_caused_by"@, 6);
            lemma_syn_key_found("causes"@, 5);
        },
        SynsetRel::IsExemplifiedBy => {
            lemma_syn_key_found("is_exemplified_by"@, 12);
            lemma_syn_key_found("exemplifies"@, 11);
        },
        SynsetRel::IsEntailedBy => {
            lemma_syn_key_found("is_entailed_by"@, 14);
            lemma_syn_key_found("entails"@, 13);
        },
        _ => {},
    }
}

} // verus!
