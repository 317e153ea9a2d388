//! The wordnet data model: entries, senses, synsets and the relations between them.

use vstd::prelude::*;
use crate::ids::{ILIID, PartOfSpeech, PosKey, SenseId, SynsetId};

verus! {

/// A pronunciation of a lemma, optionally tagged with a variety of English.
#[derive(Debug, PartialEq)]
pub struct Pronunciation {
    pub value: String,
    pub variety: Option<String>,
}

/// An example sentence, optionally with its source.
#[derive(Debug, PartialEq)]
pub struct Example {
    pub text: String,
    pub source: Option<String>,
}

/// A sense of a lemma: its identifier, the synset it belongs to and its sense-level relations.
#[derive(Debug, PartialEq, Clone)]
pub struct Sense {
    pub id: SenseId,
    pub synset: SynsetId,
    pub adjposition: Option<String>,
    pub subcat: Vec<String>,
    pub antonym: Vec<SenseId>,
    pub also: Vec<SenseId>,
    pub participle: Vec<SenseId>,
    pub pertainym: Vec<SenseId>,
    pub derivation: Vec<SenseId>,
    pub domain_topic: Vec<SenseId>,
    pub has_domain_topic: Vec<SenseId>,
    pub domain_region: Vec<SenseId>,
    pub has_domain_region: Vec<SenseId>,
    pub exemplifies: Vec<SenseId>,
    pub is_exemplified_by: Vec<SenseId>,
    pub similar: Vec<SenseId>,
    pub other: Vec<SenseId>,
    pub agent: Vec<SenseId>,
    pub material: Vec<SenseId>,
    pub event: Vec<SenseId>,
    pub instrument: Vec<SenseId>,
    pub location: Vec<SenseId>,
    pub by_means_of: Vec<SenseId>,
    pub undergoer: Vec<SenseId>,
    pub property: Vec<SenseId>,
    pub result: Vec<SenseId>,
    pub state: Vec<SenseId>,
    pub uses: Vec<SenseId>,
    pub destination: Vec<SenseId>,
    pub body_part: Vec<SenseId>,
    pub vehicle: Vec<SenseId>,
    pub sent: Vec<String>,
}

/// A lexical entry: the senses of one lemma under one part-of-speech key.
#[derive(Debug, PartialEq, Clone)]
pub struct Entry {
    pub sense: Vec<Sense>,
    pub form: Vec<String>,
    pub pronunciation: Vec<Pronunciation>,
    pub poskey: Option<PosKey>,
}

/// The entries of one `entries-*.yaml` file: lemma to (part-of-speech key to entry), both
/// levels held in key order.
#[derive(Debug, PartialEq)]
pub struct Entries(pub Vec<(String, Vec<(PosKey, Entry)>)>);

/// A relation from a sense of this synset to a sense of another synset.
#[derive(Debug, PartialEq)]
pub struct SenseRelation {
    pub target_synset: SynsetId,
    pub source_lemma: String,
    pub target_lemma: String,
}

/// A synset as read from a lexicographer file, plus the inferred reverse links.
#[derive(Debug, PartialEq, Clone)]
pub struct Synset {
    pub id: Option<SynsetId>,
    pub lexname: Option<String>,
    pub definition: Vec<String>,
    pub example: Vec<Example>,
    pub ili: Option<ILIID>,
    pub wikidata: Option<String>,
    pub source: Option<String>,
    pub members: Vec<String>,
    pub part_of_speech: PartOfSpeech,
    pub also: Vec<SynsetId>,
    pub attribute: Vec<SynsetId>,
    pub causes: Vec<SynsetId>,
    pub domain_region: Vec<SynsetId>,
    pub domain_topic: Vec<SynsetId>,
    pub exemplifies: Vec<SynsetId>,
    pub entails: Vec<SynsetId>,
    pub hypernym: Vec<SynsetId>,
    pub instance_hypernym: Vec<SynsetId>,
    pub mero_member: Vec<SynsetId>,
    pub mero_part: Vec<SynsetId>,
    pub mero_substance: Vec<SynsetId>,
    pub similar: Vec<SynsetId>,
    pub hyponym: Vec<SynsetId>,
    pub is_caused_by: Vec<SynsetId>,
    pub has_domain_region: Vec<SynsetId>,
    pub has_domain_topic: Vec<SynsetId>,
    pub is_exemplified_by: Vec<SynsetId>,
    pub is_entailed_by: Vec<SynsetId>,
    pub instance_hyponym: Vec<SynsetId>,
    pub holo_member: Vec<SynsetId>,
    pub holo_part: Vec<SynsetId>,
    pub holo_substance: Vec<SynsetId>,
    pub antonym: Vec<SenseRelation>,
    pub participle: Vec<SenseRelation>,
    pub is_participle_of: Vec<SenseRelation>,
    pub pertainym: Vec<SenseRelation>,
    pub is_pertainym_of: Vec<SenseRelation>,
    pub derivation: Vec<SenseRelation>,
    pub exemplifies_sense: Vec<SenseRelation>,
    pub is_exemplified_by_sense: Vec<SenseRelation>,
    pub agent: Vec<SenseRelation>,
    pub is_agent_of: Vec<SenseRelation>,
    pub material: Vec<SenseRelation>,
    pub is_material_of: Vec<SenseRelation>,
    pub event: Vec<SenseRelation>,
    pub is_event_of: Vec<SenseRelation>,
    pub instrument: Vec<SenseRelation>,
    pub is_instrument_of: Vec<SenseRelation>,
    pub location: Vec<SenseRelation>,
    pub is_location_of: Vec<SenseRelation>,
    pub by_means_of: Vec<SenseRelation>,
    pub is_by_means_of: Vec<SenseRelation>,
    pub undergoer: Vec<SenseRelation>,
    pub is_undergoer_of: Vec<SenseRelation>,
    pub property: Vec<SenseRelation>,
    pub is_property_of: Vec<SenseRelation>,
    pub result: Vec<SenseRelation>,
    pub is_result_of: Vec<SenseRelation>,
    pub state: Vec<SenseRelation>,
    pub is_state_of: Vec<SenseRelation>,
    pub uses: Vec<SenseRelation>,
    pub is_used_by: Vec<SenseRelation>,
    pub destination: Vec<SenseRelation>,
    pub is_destination_of: Vec<SenseRelation>,
    pub body_part: Vec<SenseRelation>,
    pub is_body_part_of: Vec<SenseRelation>,
    pub vehicle: Vec<SenseRelation>,
    pub is_vehicle_of: Vec<SenseRelation>,
}

/// The synsets of one lexicographer file, in identifier order.
#[derive(Debug, PartialEq)]
pub struct Synsets(pub Vec<(SynsetId, Synset)>);

/// `a` comes strictly before `b` in the order of a `String`-keyed map: character by character
/// by code point, a proper prefix before the longer text.
pub open spec fn text_before(a: Seq<char>, b: Seq<char>) -> bool
    decreases a.len(),
{
    if a.len() == 0 {
        b.len() > 0
    } else if b.len() == 0 {
        false
    } else if a[0] != b[0] {
        (a[0] as u32) < (b[0] as u32)
    } else {
        text_before(a.drop_first(), b.drop_first())
    }
}

/// No text comes before itself, so keys in strictly increasing order are distinct.
pub proof fn lemma_text_before_irreflexive(a: Seq<char>)
    ensures
        !text_before(a, a),
    decreases a.len(),
{
    if a.len() > 0 {
        lemma_text_before_irreflexive(a.drop_first());
    }
}

/// The lemmas of `e` in strictly increasing order, and under each lemma its part-of-speech keys.
pub open spec fn entries_in_key_order(e: Entries) -> bool {
    &&& forall|i: int, j: int| 0 <= i < j < e.0@.len() ==> text_before(#[trigger] e.0@[i].0@, #[trigger] e.0@[j].0@)
    &&& forall|l: int, p: int, q: int| 0 <= l < e.0@.len() && 0 <= p < q < e.0@[l].1@.len()
        ==> text_before(#[trigger] e.0@[l].1@[p].0@, #[trigger] e.0@[l].1@[q].0@)
}

/// The synsets of `s` in strictly increasing identifier order.
pub open spec fn synsets_in_key_order(s: Synsets) -> bool {
    forall|i: int, j: int| 0 <= i < j < s.0@.len() ==> text_before(#[trigger] s.0@[i].0@, #[trigger] s.0@[j].0@)
}

/// The files of `files` in strictly increasing name order, each with its entries in key order.
pub open spec fn entry_files_in_key_order(files: Seq<(String, Entries)>) -> bool {
    &&& forall|i: int, j: int| 0 <= i < j < files.len() ==> text_before(#[trigger] files[i].0@, #[trigger] files[j].0@)
    &&& forall|f: int| 0 <= f < files.len() ==> entries_in_key_order(#[trigger] files[f].1)
}

/// The files of `store` in strictly increasing name order, each with its synsets in identifier order.
pub open spec fn store_in_key_order(store: Seq<(String, Synsets)>) -> bool {
    &&& forall|i: int, j: int| 0 <= i < j < store.len() ==> text_before(#[trigger] store[i].0@, #[trigger] store[j].0@)
    &&& forall|f: int| 0 <= f < store.len() ==> synsets_in_key_order(#[trigger] store[f].1)
}

/// The sense of a synset member.
#[derive(Debug, PartialEq)]
pub struct MemberSense {
    pub id: SenseId,
    pub subcat: Vec<String>,
}

/// A member of a synset, with the data of the entry it comes from.
#[derive(Debug, PartialEq)]
pub struct Member {
    pub lemma: String,
    pub sense: MemberSense,
    pub form: Vec<String>,
    pub pronunciation: Vec<Pronunciation>,
    pub poskey: Option<PosKey>,
    pub entry_no: Option<u32>,
}

/// A synset with its members resolved against the entries.
#[derive(Debug, PartialEq)]
pub struct MemberSynset {
    pub id: SynsetId,
    pub lexname: String,
    pub definition: Vec<String>,
    pub example: Vec<Example>,
    pub ili: Option<ILIID>,
    pub wikidata: Option<String>,
    pub source: Option<String>,
    pub members: Vec<Member>,
    pub part_of_speech: PartOfSpeech,
    pub also: Vec<SynsetId>,
    pub attribute: Vec<SynsetId>,
    pub causes: Vec<SynsetId>,
    pub domain_region: Vec<SynsetId>,
    pub domain_topic: Vec<SynsetId>,
    pub exemplifies: Vec<SynsetId>,
    pub entails: Vec<SynsetId>,
    pub hypernym: Vec<SynsetId>,
    pub instance_hypernym: Vec<SynsetId>,
    pub mero_member: Vec<SynsetId>,
    pub mero_part: Vec<SynsetId>,
    pub mero_substance: Vec<SynsetId>,
    pub similar: Vec<SynsetId>,
    pub hyponym: Vec<SynsetId>,
    pub is_caused_by: Vec<SynsetId>,
    pub has_domain_region: Vec<SynsetId>,
    pub has_domain_topic: Vec<SynsetId>,
    pub is_exemplified_by: Vec<SynsetId>,
    pub is_entailed_by: Vec<SynsetId>,
    pub instance_hyponym: Vec<SynsetId>,
    pub holo_member: Vec<SynsetId>,
    pub holo_part: Vec<SynsetId>,
    pub holo_substance: Vec<SynsetId>,
    pub antonym: Vec<SenseRelation>,
    pub participle: Vec<SenseRelation>,
    pub is_participle_of: Vec<SenseRelation>,
    pub pertainym: Vec<SenseRelation>,
    pub is_pertainym_of: Vec<SenseRelation>,
    pub derivation: Vec<SenseRelation>,
    pub exemplifies_sense: Vec<SenseRelation>,
    pub is_exemplified_by_sense: Vec<SenseRelation>,
    pub agent: Vec<SenseRelation>,
    pub is_agent_of: Vec<SenseRelation>,
    pub material: Vec<SenseRelation>,
    pub is_material_of: Vec<SenseRelation>,
    pub event: Vec<SenseRelation>,
    pub is_event_of: Vec<SenseRelation>,
    pub instrument: Vec<SenseRelation>,
    pub is_instrument_of: Vec<SenseRelation>,
    pub location: Vec<SenseRelation>,
    pub is_location_of: Vec<SenseRelation>,
    pub by_means_of: Vec<SenseRelation>,
    pub is_by_means_of: Vec<SenseRelation>,
    pub undergoer: Vec<SenseRelation>,
    pub is_undergoer_of: Vec<SenseRelation>,
    pub property: Vec<SenseRelation>,
    pub is_property_of: Vec<SenseRelation>,
    pub result: Vec<SenseRelation>,
    pub is_result_of: Vec<SenseRelation>,
    pub state: Vec<SenseRelation>,
    pub is_state_of: Vec<SenseRelation>,
    pub uses: Vec<SenseRelation>,
    pub is_used_by: Vec<SenseRelation>,
    pub destination: Vec<SenseRelation>,
    pub is_destination_of: Vec<SenseRelation>,
    pub body_part: Vec<SenseRelation>,
    pub is_body_part_of: Vec<SenseRelation>,
    pub vehicle: Vec<SenseRelation>,
    pub is_vehicle_of: Vec<SenseRelation>,
}

fn clone_opt_string(o: &Option<String>) -> (r: Option<String>)
    ensures
        r == *o,
{
    match o {
        Some(v) => Some(v.clone()),
        None => None,
    }
}

impl Clone for Pronunciation {
    fn clone(&self) -> (r: Self)
        ensures
            r == *self,
    {
        Pronunciation { value: self.value.clone(), variety: clone_opt_string(&self.variety) }
    }
}

impl Clone for Example {
    fn clone(&self) -> (r: Self)
        ensures
            r == *self,
    {
        Example { text: self.text.clone(), source: clone_opt_string(&self.source) }
    }
}

impl Clone for SenseRelation {
    fn clone(&self) -> (r: Self)
        ensures
            r == *self,
    {
        SenseRelation {
            target_synset: self.target_synset.clone(),
            source_lemma: self.source_lemma.clone(),
            target_lemma: self.target_lemma.clone(),
        }
    }
}

impl Clone for MemberSense {
    fn clone(&self) -> (r: Self)
        ensures
            r.id == self.id,
            r.subcat@ == self.subcat@,
    {
        MemberSense { id: self.id.clone(), subcat: self.subcat.clone() }
    }
}

/// Two members agree field by field.
pub open spec fn member_same(a: Member, b: Member) -> bool {
    &&& a.lemma == b.lemma
    &&& a.sense.id == b.sense.id
    &&& a.sense.subcat@ == b.sense.subcat@
    &&& a.form@ == b.form@
    &&& a.pronunciation@ == b.pronunciation@
    &&& a.poskey == b.poskey
    &&& a.entry_no == b.entry_no
}

/// Two lists of members agree member by member.
pub open spec fn members_same(a: Seq<Member>, b: Seq<Member>) -> bool {
    &&& a.len() == b.len()
    &&& forall|i: int| 0 <= i < a.len() ==> member_same(#[trigger] a[i], b[i])
}

/// Two member synsets agree field by field.
pub open spec fn member_synset_same(a: MemberSynset, b: MemberSynset) -> bool {
    &&& a.id == b.id
    &&& a.lexname == b.lexname
    &&& a.definition@ == b.definition@
    &&& a.example@ == b.example@
    &&& a.ili == b.ili
    &&& a.wikidata == b.wikidata
    &&& a.source == b.source
    &&& members_same(a.members@, b.members@)
    &&& a.part_of_speech == b.part_of_speech
    &&& a.also@ == b.also@
    &&& a.attribute@ == b.attribute@
    &&& a.causes@ == b.causes@
    &&& a.domain_region@ == b.domain_region@
    &&& a.domain_topic@ == b.domain_topic@
    &&& a.exemplifies@ == b.exemplifies@
    &&& a.entails@ == b.entails@
    &&& a.hypernym@ == b.hypernym@
    &&& a.instance_hypernym@ == b.instance_hypernym@
    &&& a.mero_member@ == b.mero_member@
    &&& a.mero_part@ == b.mero_part@
    &&& a.mero_substance@ == b.mero_substance@
    &&& a.similar@ == b.similar@
    &&& a.hyponym@ == b.hyponym@
    &&& a.is_caused_by@ == b.is_caused_by@
    &&& a.has_domain_region@ == b.has_domain_region@
    &&& a.has_domain_topic@ == b.has_domain_topic@
    &&& a.is_exemplified_by@ == b.is_exemplified_by@
    &&& a.is_entailed_by@ == b.is_entailed_by@
    &&& a.instance_hyponym@ == b.instance_hyponym@
    &&& a.holo_member@ == b.holo_member@
    &&& a.holo_part@ == b.holo_part@
    &&& a.holo_substance@ == b.holo_substance@
    &&& a.antonym@ == b.antonym@
    &&& a.participle@ == b.participle@
    &&& a.is_participle_of@ == b.is_participle_of@
    &&& a.pertainym@ == b.pertainym@
    &&& a.is_pertainym_of@ == b.is_pertainym_of@
    &&& a.derivation@ == b.derivation@
    &&& a.exemplifies_sense@ == b.exemplifies_sense@
    &&& a.is_exemplified_by_sense@ == b.is_exemplified_by_sense@
    &&& a.agent@ == b.agent@
    &&& a.is_agent_of@ == b.is_agent_of@
    &&& a.material@ == b.material@
    &&& a.is_material_of@ == b.is_material_of@
    &&& a.event@ == b.event@
    &&& a.is_event_of@ == b.is_event_of@
    &&& a.instrument@ == b.instrument@
    &&& a.is_instrument_of@ == b.is_instrument_of@
    &&& a.location@ == b.location@
    &&& a.is_location_of@ == b.is_location_of@
    &&& a.by_means_of@ == b.by_means_of@
    &&& a.is_by_means_of@ == b.is_by_means_of@
    &&& a.undergoer@ == b.undergoer@
    &&& a.is_undergoer_of@ == b.is_undergoer_of@
    &&& a.property@ == b.property@
    &&& a.is_property_of@ == b.is_property_of@
    &&& a.result@ == b.result@
    &&& a.is_result_of@ == b.is_result_of@
    &&& a.state@ == b.state@
    &&& a.is_state_of@ == b.is_state_of@
    &&& a.uses@ == b.uses@
    &&& a.is_used_by@ == b.is_used_by@
    &&& a.destination@ == b.destination@
    &&& a.is_destination_of@ == b.is_destination_of@
    &&& a.body_part@ == b.body_part@
    &&& a.is_body_part_of@ == b.is_body_part_of@
    &&& a.vehicle@ == b.vehicle@
    &&& a.is_vehicle_of@ == b.is_vehicle_of@
}

fn clone_vec<T: Clone>(v: &Vec<T>) -> (r: Vec<T>)
    requires
        forall|x: T, y: T| #[trigger] cloned(x, y) ==> x == y,
    ensures
        r@ == v@,
{
    let r = v.clone();
    assert(r@ =~= v@);
    r
}

impl Clone for Member {
    fn clone(&self) -> (r: Self)
        ensures
            member_same(r, *self),
    {
        Member {
            lemma: self.lemma.clone(),
            sense: self.sense.clone(),
            form: self.form.clone(),
            pronunciation: self.pronunciation.clone(),
            poskey: match &self.poskey {
                Some(k) => Some(k.clone()),
                None => None,
            },
            entry_no: self.entry_no,
        }
    }
}

fn clone_members(v: &Vec<Member>) -> (r: Vec<Member>)
    ensures
        members_same(r@, v@),
{
    let r = v.clone();
    assert forall|i: int| 0 <= i < r@.len() implies member_same(#[trigger] r@[i], v@[i]) by {
        assert(cloned(v@[i], r@[i]));
    }
    r
}

impl Clone for MemberSynset {
    fn clone(&self) -> (r: Self)
        ensures
            member_synset_same(r, *self),
    {
        MemberSynset {
            id: self.id.clone(),
            lexname: self.lexname.clone(),
            definition: clone_vec(&self.definition),
            example: clone_vec(&self.example),
            ili: match &self.ili { Some(i) => Some(i.clone()), None => None },
            wikidata: clone_opt_string(&self.wikidata),
            source: clone_opt_string(&self.source),
            members: clone_members(&self.members),
            part_of_speech: self.part_of_speech,
            also: clone_vec(&self.also),
            attribute: clone_vec(&self.attribute),
            causes: clone_vec(&self.causes),
            domain_region: clone_vec(&self.domain_region),
            domain_topic: clone_vec(&self.domain_topic),
            exemplifies: clone_vec(&self.exemplifies),
            entails: clone_vec(&self.entails),
            hypernym: clone_vec(&self.hypernym),
            instance_hypernym: clone_vec(&self.instance_hypernym),
            mero_member: clone_vec(&self.mero_member),
            mero_part: clone_vec(&self.mero_part),
            mero_substance: clone_vec(&self.mero_substance),
            similar: clone_vec(&self.similar),
            hyponym: clone_vec(&self.hyponym),
            is_caused_by: clone_vec(&self.is_caused_by),
            has_domain_region: clone_vec(&self.has_domain_region),
            has_domain_topic: clone_vec(&self.has_domain_topic),
            is_exemplified_by: clone_vec(&self.is_exemplified_by),
            is_entailed_by: clone_vec(&self.is_entailed_by),
            instance_hyponym: clone_vec(&self.instance_hyponym),
            holo_member: clone_vec(&self.holo_member),
            holo_part: clone_vec(&self.holo_part),
            holo_substance: clone_vec(&self.holo_substance),
            antonym: clone_vec(&self.antonym),
            participle: clone_vec(&self.participle),
            is_participle_of: clone_vec(&self.is_participle_of),
            pertainym: clone_vec(&self.pertainym),
            is_pertainym_of: clone_vec(&self.is_pertainym_of),
            derivation: clone_vec(&self.derivation),
            exemplifies_sense: clone_vec(&self.exemplifies_sense),
            is_exemplified_by_sense: clone_vec(&self.is_exemplified_by_sense),
            agent: clone_vec(&self.agent),
            is_agent_of: clone_vec(&self.is_agent_of),
            material: clone_vec(&self.material),
            is_material_of: clone_vec(&self.is_material_of),
            event: clone_vec(&self.event),
            is_event_of: clone_vec(&self.is_event_of),
            instrument: clone_vec(&self.instrument),
            is_instrument_of: clone_vec(&self.is_instrument_of),
            location: clone_vec(&self.location),
            is_location_of: clone_vec(&self.is_location_of),
            by_means_of: clone_vec(&self.by_means_of),
            is_by_means_of: clone_vec(&self.is_by_means_of),
            undergoer: clone_vec(&self.undergoer),
            is_undergoer_of: clone_vec(&self.is_undergoer_of),
            property: clone_vec(&self.property),
            is_property_of: clone_vec(&self.is_property_of),
            result: clone_vec(&self.result),
            is_result_of: clone_vec(&self.is_result_of),
            state: clone_vec(&self.state),
            is_state_of: clone_vec(&self.is_state_of),
            uses: clone_vec(&self.uses),
            is_used_by: clone_vec(&self.is_used_by),
            destination: clone_vec(&self.destination),
            is_destination_of: clone_vec(&self.is_destination_of),
            body_part: clone_vec(&self.body_part),
            is_body_part_of: clone_vec(&self.is_body_part_of),
            vehicle: clone_vec(&self.vehicle),
            is_vehicle_of: clone_vec(&self.is_vehicle_of),
        }
    }
}

/// Why a wordnet could not be loaded.
#[derive(Debug)]
pub enum WordNetYAMLIOError {
    Io(String),
    Serde(String),
}

impl WordNetYAMLIOError {
    /// The message of the error.
    pub fn to_string(&self) -> (r: String)
        ensures
            r@ == "Could not load WordNet: "@ + match self {
                WordNetYAMLIOError::Io(m) => m@,
                WordNetYAMLIOError::Serde(m) => m@,
            },
    {
        let mut r = String::from_str("Could not load WordNet: ");
        match self {
            WordNetYAMLIOError::Io(m) => r.append(m.as_str()),
            WordNetYAMLIOError::Serde(m) => r.append(m.as_str()),
        }
        r
    }
}

/// The synset-to-synset relation fields of a synset.
#[derive(Debug, PartialEq, Eq, Clone, Copy)]
pub enum SynsetRel {
    Also,
    Attribute,
    Causes,
    DomainRegion,
    DomainTopic,
    Exemplifies,
    Entails,
    Hypernym,
    InstanceHypernym,
    MeroMember,
    MeroPart,
    MeroSubstance,
    Similar,
    Hyponym,
    IsCausedBy,
    HasDomainRegion,
    HasDomainTopic,
    IsExemplifiedBy,
    IsEntailedBy,
    InstanceHyponym,
    HoloMember,
    HoloPart,
    HoloSubstance,
}

/// The sense-relation fields of a synset.
#[derive(Debug, PartialEq, Eq, Clone, Copy)]
pub enum SenseRelField {
    Antonym,
    Participle,
    IsParticipleOf,
    Pertainym,
    IsPertainymOf,
    Derivation,
    ExemplifiesSense,
    IsExemplifiedBySense,
    Agent,
    IsAgentOf,
    Material,
    IsMaterialOf,
    Event,
    IsEventOf,
    Instrument,
    IsInstrumentOf,
    Location,
    IsLocationOf,
    ByMeansOf,
    IsByMeansOf,
    Undergoer,
    IsUndergoerOf,
    Property,
    IsPropertyOf,
    Result,
    IsResultOf,
    State,
    IsStateOf,
    Uses,
    IsUsedBy,
    Destination,
    IsDestinationOf,
    BodyPart,
    IsBodyPartOf,
    Vehicle,
    IsVehicleOf,
}

/// The sense-to-sense link fields of a sense that are mirrored onto synsets.
#[derive(Debug, PartialEq, Eq, Clone, Copy)]
pub enum SenseLinkField {
    Antonym,
    Participle,
    Pertainym,
    Derivation,
    Exemplifies,
    Agent,
    Material,
    Event,
    Instrument,
    Location,
    ByMeansOf,
    Undergoer,
    Property,
    Result,
    State,
    Uses,
    Destination,
    BodyPart,
    Vehicle,
}

/// The value of a synset relation field.
pub open spec fn synset_rel(s: Synset, r: SynsetRel) -> Vec<SynsetId> {
    match r {
        SynsetRel::Also => s.also,
        SynsetRel::Attribute => s.attribute,
        SynsetRel::Causes => s.causes,
        SynsetRel::DomainRegion => s.domain_region,
        SynsetRel::DomainTopic => s.domain_topic,
        SynsetRel::Exemplifies => s.exemplifies,
        SynsetRel::Entails => s.entails,
        SynsetRel::Hypernym => s.hypernym,
        SynsetRel::InstanceHypernym => s.instance_hypernym,
        SynsetRel::MeroMember => s.mero_member,
        SynsetRel::MeroPart => s.mero_part,
        SynsetRel::MeroSubstance => s.mero_substance,
        SynsetRel::Similar => s.similar,
        SynsetRel::Hyponym => s.hyponym,
        SynsetRel::IsCausedBy => s.is_caused_by,
        SynsetRel::HasDomainRegion => s.has_domain_region,
        SynsetRel::HasDomainTopic => s.has_domain_topic,
        SynsetRel::IsExemplifiedBy => s.is_exemplified_by,
        SynsetRel::IsEntailedBy => s.is_entailed_by,
        SynsetRel::InstanceHyponym => s.instance_hyponym,
        SynsetRel::HoloMember => s.holo_member,
        SynsetRel::HoloPart => s.holo_part,
        SynsetRel::HoloSubstance => s.holo_substance,
    }
}

/// The value of a sense-relation field of a synset.
pub open spec fn synset_sense_rel(s: Synset, r: SenseRelField) -> Vec<SenseRelation> {
    match r {
        SenseRelField::Antonym => s.antonym,
        SenseRelField::Participle => s.participle,
        SenseRelField::IsParticipleOf => s.is_participle_of,
        SenseRelField::Pertainym => s.pertainym,
        SenseRelField::IsPertainymOf => s.is_pertainym_of,
        SenseRelField::Derivation => s.derivation,
        SenseRelField::ExemplifiesSense => s.exemplifies_sense,
        SenseRelField::IsExemplifiedBySense => s.is_exemplified_by_sense,
        SenseRelField::Agent => s.agent,
        SenseRelField::IsAgentOf => s.is_agent_of,
        SenseRelField::Material => s.material,
        SenseRelField::IsMaterialOf => s.is_material_of,
        SenseRelField::Event => s.event,
        SenseRelField::IsEventOf => s.is_event_of,
        SenseRelField::Instrument => s.instrument,
        SenseRelField::IsInstrumentOf => s.is_instrument_of,
        SenseRelField::Location => s.location,
        SenseRelField::IsLocationOf => s.is_location_of,
        SenseRelField::ByMeansOf => s.by_means_of,
        SenseRelField::IsByMeansOf => s.is_by_means_of,
        SenseRelField::Undergoer => s.undergoer,
        SenseRelField::IsUndergoerOf => s.is_undergoer_of,
        SenseRelField::Property => s.property,
        SenseRelField::IsPropertyOf => s.is_property_of,
        SenseRelField::Result => s.result,
        SenseRelField::IsResultOf => s.is_result_of,
        SenseRelField::State => s.state,
        SenseRelField::IsStateOf => s.is_state_of,
        SenseRelField::Uses => s.uses,
        SenseRelField::IsUsedBy => s.is_used_by,
        SenseRelField::Destination => s.destination,
        SenseRelField::IsDestinationOf => s.is_destination_of,
        SenseRelField::BodyPart => s.body_part,
        SenseRelField::IsBodyPartOf => s.is_body_part_of,
        SenseRelField::Vehicle => s.vehicle,
        SenseRelField::IsVehicleOf => s.is_vehicle_of,
    }
}

/// The value of a sense link field.
pub open spec fn sense_link(s: Sense, f: SenseLinkField) -> Vec<SenseId> {
    match f {
        SenseLinkField::Antonym => s.antonym,
        SenseLinkField::Participle => s.participle,
        SenseLinkField::Pertainym => s.pertainym,
        SenseLinkField::Derivation => s.derivation,
        SenseLinkField::Exemplifies => s.exemplifies,
        SenseLinkField::Agent => s.agent,
        SenseLinkField::Material => s.material,
        SenseLinkField::Event => s.event,
        SenseLinkField::Instrument => s.instrument,
        SenseLinkField::Location => s.location,
        SenseLinkField::ByMeansOf => s.by_means_of,
        SenseLinkField::Undergoer => s.undergoer,
        SenseLinkField::Property => s.property,
        SenseLinkField::Result => s.result,
        SenseLinkField::State => s.state,
        SenseLinkField::Uses => s.uses,
        SenseLinkField::Destination => s.destination,
        SenseLinkField::BodyPart => s.body_part,
        SenseLinkField::Vehicle => s.vehicle,
    }
}

/// Every sense-to-sense relation field of a sense.
#[derive(Debug, PartialEq, Eq, Clone, Copy)]
pub enum SenseRelType {
    Antonym,
    Also,
    Participle,
    Pertainym,
    Derivation,
    DomainTopic,
    HasDomainTopic,
    DomainRegion,
    HasDomainRegion,
    Exemplifies,
    IsExemplifiedBy,
    Similar,
    Other,
    Agent,
    Material,
    Event,
    Instrument,
    Location,
    ByMeansOf,
    Undergoer,
    Property,
    Result,
    State,
    Uses,
    Destination,
    BodyPart,
    Vehicle,
}

/// The value of a sense relation field.
pub open spec fn sense_rel_field(s: Sense, r: SenseRelType) -> Vec<SenseId> {
    match r {
        SenseRelType::Antonym => s.antonym,
        SenseRelType::Also => s.also,
        SenseRelType::Participle => s.participle,
        SenseRelType::Pertainym => s.pertainym,
        SenseRelType::Derivation => s.derivation,
        SenseRelType::DomainTopic => s.domain_topic,
        SenseRelType::HasDomainTopic => s.has_domain_topic,
        SenseRelType::DomainRegion => s.domain_region,
        SenseRelType::HasDomainRegion => s.has_domain_region,
        SenseRelType::Exemplifies => s.exemplifies,
        SenseRelType::IsExemplifiedBy => s.is_exemplified_by,
        SenseRelType::Similar => s.similar,
        SenseRelType::Other => s.other,
        SenseRelType::Agent => s.agent,
        SenseRelType::Material => s.material,
        SenseRelType::Event => s.event,
        SenseRelType::Instrument => s.instrument,
        SenseRelType::Location => s.location,
        SenseRelType::ByMeansOf => s.by_means_of,
        SenseRelType::Undergoer => s.undergoer,
        SenseRelType::Property => s.property,
        SenseRelType::Result => s.result,
        SenseRelType::State => s.state,
        SenseRelType::Uses => s.uses,
        SenseRelType::Destination => s.destination,
        SenseRelType::BodyPart => s.body_part,
        SenseRelType::Vehicle => s.vehicle,
    }
}

impl Sense {
    /// The value of a relation field.
    pub fn rel_links(&self, r: SenseRelType) -> (v: &Vec<SenseId>)
        ensures
            *v == sense_rel_field(*self, r),
    {
        match r {
            SenseRelType::Antonym => &self.antonym,
            SenseRelType::Also => &self.also,
            SenseRelType::Participle => &self.participle,
            SenseRelType::Pertainym => &self.pertainym,
            SenseRelType::Derivation => &self.derivation,
            SenseRelType::DomainTopic => &self.domain_topic,
            SenseRelType::HasDomainTopic => &self.has_domain_topic,
            SenseRelType::DomainRegion => &self.domain_region,
            SenseRelType::HasDomainRegion => &self.has_domain_region,
            SenseRelType::Exemplifies => &self.exemplifies,
            SenseRelType::IsExemplifiedBy => &self.is_exemplified_by,
            SenseRelType::Similar => &self.similar,
            SenseRelType::Other => &self.other,
            SenseRelType::Agent => &self.agent,
            SenseRelType::Material => &self.material,
            SenseRelType::Event => &self.event,
            SenseRelType::Instrument => &self.instrument,
            SenseRelType::Location => &self.location,
            SenseRelType::ByMeansOf => &self.by_means_of,
            SenseRelType::Undergoer => &self.undergoer,
            SenseRelType::Property => &self.property,
            SenseRelType::Result => &self.result,
            SenseRelType::State => &self.state,
            SenseRelType::Uses => &self.uses,
            SenseRelType::Destination => &self.destination,
            SenseRelType::BodyPart => &self.body_part,
            SenseRelType::Vehicle => &self.vehicle,
        }
    }
}

/// Two synsets agree on every field that is not a relation.
pub open spec fn same_synset_core(a: Synset, b: Synset) -> bool {
    &&& a.id == b.id
    &&& a.lexname == b.lexname
    &&& a.definition == b.definition
    &&& a.example == b.example
    &&& a.ili == b.ili
    &&& a.wikidata == b.wikidata
    &&& a.source == b.source
    &&& a.members == b.members
    &&& a.part_of_speech == b.part_of_speech
}

impl Synset {
    /// The value of a relation field.
    pub fn rel(&self, r: SynsetRel) -> (v: &Vec<SynsetId>)
        ensures
            *v == synset_rel(*self, r),
    {
        match r {
            SynsetRel::Also => &self.also,
            SynsetRel::Attribute => &self.attribute,
            SynsetRel::Causes => &self.causes,
            SynsetRel::DomainRegion => &self.domain_region,
            SynsetRel::DomainTopic => &self.domain_topic,
            SynsetRel::Exemplifies => &self.exemplifies,
            SynsetRel::Entails => &self.entails,
            SynsetRel::Hypernym => &self.hypernym,
            SynsetRel::InstanceHypernym => &self.instance_hypernym,
            SynsetRel::MeroMember => &self.mero_member,
            SynsetRel::MeroPart => &self.mero_part,
            SynsetRel::MeroSubstance => &self.mero_substance,
            SynsetRel::Similar => &self.similar,
            SynsetRel::Hyponym => &self.hyponym,
            SynsetRel::IsCausedBy => &self.is_caused_by,
            SynsetRel::HasDomainRegion => &self.has_domain_region,
            SynsetRel::HasDomainTopic => &self.has_domain_topic,
            SynsetRel::IsExemplifiedBy => &self.is_exemplified_by,
            SynsetRel::IsEntailedBy => &self.is_entailed_by,
            SynsetRel::InstanceHyponym => &self.instance_hyponym,
            SynsetRel::HoloMember => &self.holo_member,
            SynsetRel::HoloPart => &self.holo_part,
            SynsetRel::HoloSubstance => &self.holo_substance,
        }
    }

    /// Appends `id` to a relation field, leaving every other field unchanged.
    pub fn push_rel(&mut self, r: SynsetRel, id: SynsetId)
        ensures
            synset_rel(*final(self), r)@ == synset_rel(*old(self), r)@.push(id),
            forall|q: SynsetRel| q != r ==> #[trigger] synset_rel(*final(self), q) == synset_rel(*old(self), q),
            forall|q: SenseRelField| #[trigger] synset_sense_rel(*final(self), q) == synset_sense_rel(*old(self), q),
            same_synset_core(*final(self), *old(self)),
    {
        match r {
            SynsetRel::Also => self.also.push(id),
            SynsetRel::Attribute => self.attribute.push(id),
            SynsetRel::Causes => self.causes.push(id),
            SynsetRel::DomainRegion => self.domain_region.push(id),
            SynsetRel::DomainTopic => self.domain_topic.push(id),
            SynsetRel::Exemplifies => self.exemplifies.push(id),
            SynsetRel::Entails => self.entails.push(id),
            SynsetRel::Hypernym => self.hypernym.push(id),
            SynsetRel::InstanceHypernym => self.instance_hypernym.push(id),
            SynsetRel::MeroMember => self.mero_member.push(id),
            SynsetRel::MeroPart => self.mero_part.push(id),
            SynsetRel::MeroSubstance => self.mero_substance.push(id),
            SynsetRel::Similar => self.similar.push(id),
            SynsetRel::Hyponym => self.hyponym.push(id),
            SynsetRel::IsCausedBy => self.is_caused_by.push(id),
            SynsetRel::HasDomainRegion => self.has_domain_region.push(id),
            SynsetRel::HasDomainTopic => self.has_domain_topic.push(id),
            SynsetRel::IsExemplifiedBy => self.is_exemplified_by.push(id),
            SynsetRel::IsEntailedBy => self.is_entailed_by.push(id),
            SynsetRel::InstanceHyponym => self.instance_hyponym.push(id),
            SynsetRel::HoloMember => self.holo_member.push(id),
            SynsetRel::HoloPart => self.holo_part.push(id),
            SynsetRel::HoloSubstance => self.holo_substance.push(id),
        }
    }

    /// Appends `rel` to a sense-relation field, leaving every other field unchanged.
    pub fn push_sense_rel(&mut self, r: SenseRelField, rel: SenseRelation)
        ensures
            synset_sense_rel(*final(self), r)@ == synset_sense_rel(*old(self), r)@.push(rel),
            forall|q: SenseRelField| q != r ==> #[trigger] synset_sense_rel(*final(self), q) == synset_sense_rel(*old(self), q),
            forall|q: SynsetRel| #[trigger] synset_rel(*final(self), q) == synset_rel(*old(self), q),
            same_synset_core(*final(self), *old(self)),
    {
        match r {
            SenseRelField::Antonym => self.antonym.push(rel),
            SenseRelField::Participle => self.participle.push(rel),
            SenseRelField::IsParticipleOf => self.is_participle_of.push(rel),
            SenseRelField::Pertainym => self.pertainym.push(rel),
            SenseRelField::IsPertainymOf => self.is_pertainym_of.push(rel),
            SenseRelField::Derivation => self.derivation.push(rel),
            SenseRelField::ExemplifiesSense => self.exemplifies_sense.push(rel),
            SenseRelField::IsExemplifiedBySense => self.is_exemplified_by_sense.push(rel),
            SenseRelField::Agent => self.agent.push(rel),
            SenseRelField::IsAgentOf => self.is_agent_of.push(rel),
            SenseRelField::Material => self.material.push(rel),
            SenseRelField::IsMaterialOf => self.is_material_of.push(rel),
            SenseRelField::Event => self.event.push(rel),
            SenseRelField::IsEventOf => self.is_event_of.push(rel),
            SenseRelField::Instrument => self.instrument.push(rel),
            SenseRelField::IsInstrumentOf => self.is_instrument_of.push(rel),
            SenseRelField::Location => self.location.push(rel),
            SenseRelField::IsLocationOf => self.is_location_of.push(rel),
            SenseRelField::ByMeansOf => self.by_means_of.push(rel),
            SenseRelField::IsByMeansOf => self.is_by_means_of.push(rel),
            SenseRelField::Undergoer => self.undergoer.push(rel),
            SenseRelField::IsUndergoerOf => self.is_undergoer_of.push(rel),
            SenseRelField::Property => self.property.push(rel),
            SenseRelField::IsPropertyOf => self.is_property_of.push(rel),
            SenseRelField::Result => self.result.push(rel),
            SenseRelField::IsResultOf => self.is_result_of.push(rel),
            SenseRelField::State => self.state.push(rel),
            SenseRelField::IsStateOf => self.is_state_of.push(rel),
            SenseRelField::Uses => self.uses.push(rel),
            SenseRelField::IsUsedBy => self.is_used_by.push(rel),
            SenseRelField::Destination => self.destination.push(rel),
            SenseRelField::IsDestinationOf => self.is_destination_of.push(rel),
            SenseRelField::BodyPart => self.body_part.push(rel),
            SenseRelField::IsBodyPartOf => self.is_body_part_of.push(rel),
            SenseRelField::Vehicle => self.vehicle.push(rel),
            SenseRelField::IsVehicleOf => self.is_vehicle_of.push(rel),
        }
    }
}

impl Sense {
    /// The value of a sense link field.
    pub fn link(&self, f: SenseLinkField) -> (v: &Vec<SenseId>)
        ensures
            *v == sense_link(*self, f),
    {
        match f {
            SenseLinkField::Antonym => &self.antonym,
            SenseLinkField::Participle => &self.participle,
            SenseLinkField::Pertainym => &self.pertainym,
            SenseLinkField::Derivation => &self.derivation,
            SenseLinkField::Exemplifies => &self.exemplifies,
            SenseLinkField::Agent => &self.agent,
            SenseLinkField::Material => &self.material,
            SenseLinkField::Event => &self.event,
            SenseLinkField::Instrument => &self.instrument,
            SenseLinkField::Location => &self.location,
            SenseLinkField::ByMeansOf => &self.by_means_of,
            SenseLinkField::Undergoer => &self.undergoer,
            SenseLinkField::Property => &self.property,
            SenseLinkField::Result => &self.result,
            SenseLinkField::State => &self.state,
            SenseLinkField::Uses => &self.uses,
            SenseLinkField::Destination => &self.destination,
            SenseLinkField::BodyPart => &self.body_part,
            SenseLinkField::Vehicle => &self.vehicle,
        }
    }
}

} // verus!
