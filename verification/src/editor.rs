//! The synset editor's decisions: which changes a set of drafts amounts to, and the small
//! views of a synset the editor shows.

use vstd::prelude::*;
use crate::ids::{SenseId, SynsetId};
use crate::model::{Example, MemberSynset, SenseRelation};
use crate::relations::RelationTypeInfo;
use crate::text::{chars_of, str_eq, trim, trimmed, starts_with};

verus! {

// ---------------------------------------------------------------------------------------------
// Drafts and changes.
// ---------------------------------------------------------------------------------------------

/// One example row as drafted in the editor.
#[derive(Debug)]
pub struct ExampleDraft {
    /// The 1-based position of an existing example; `None` for a new row.
    pub original_number: Option<usize>,
    pub text: String,
    /// Empty means no source.
    pub source: String,
    /// Marked for deletion (existing rows only).
    pub deleted: bool,
}

/// An existing relation row queued for deletion.
#[derive(Debug)]
pub struct RelationKey {
    pub key: &'static str,
    pub target: SynsetId,
    pub source_lemma: Option<String>,
    pub target_lemma: Option<String>,
}

/// A new relation queued for addition.
#[derive(Debug)]
pub struct PendingRelation {
    pub info: RelationTypeInfo,
    pub target: SynsetId,
    pub target_display: String,
    pub source_lemma: Option<String>,
    pub target_lemma: Option<String>,
}

/// A reference to a synset in a change.
#[derive(Debug)]
pub enum SynsetRef {
    Id(SynsetId),
}

/// One change to the wordnet.
#[derive(Debug)]
#[allow(inconsistent_fields)]
pub enum Action {
    ChangeMembers { synset: SynsetRef, members: Vec<String> },
    Definition { synset: SynsetRef, definition: String },
    UpdateExample { synset: SynsetRef, number: usize, example: String, source: Option<String> },
    DeleteExample { synset: SynsetRef, number: usize },
    AddExample { synset: SynsetRef, example: String, source: Option<String> },
    DeleteRelation {
        source: SynsetRef,
        source_sense: Option<SenseId>,
        target: SynsetRef,
        target_sense: Option<SenseId>,
        source_lemma: Option<String>,
        target_lemma: Option<String>,
    },
    AddRelation {
        source: SynsetRef,
        source_sense: Option<SenseId>,
        relation: String,
        target: SynsetRef,
        target_sense: Option<SenseId>,
        source_lemma: Option<String>,
        target_lemma: Option<String>,
    },
}

/// A change, with every text spelled out.
#[allow(inconsistent_fields)]
pub enum ActionView {
    ChangeMembers { synset: Seq<char>, members: Seq<Seq<char>> },
    Definition { synset: Seq<char>, definition: Seq<char> },
    UpdateExample { synset: Seq<char>, number: nat, example: Seq<char>, source: Option<Seq<char>> },
    DeleteExample { synset: Seq<char>, number: nat },
    AddExample { synset: Seq<char>, example: Seq<char>, source: Option<Seq<char>> },
    DeleteRelation { source: Seq<char>, target: Seq<char>, source_lemma: Option<Seq<char>>, target_lemma: Option<Seq<char>> },
    AddRelation {
        source: Seq<char>,
        relation: Seq<char>,
        target: Seq<char>,
        source_lemma: Option<Seq<char>>,
        target_lemma: Option<Seq<char>>,
    },
}

/// The text of an optional string.
pub open spec fn opt_text(o: Option<String>) -> Option<Seq<char>> {
    match o {
        Some(s) => Some(s@),
        None => None,
    }
}

/// The synset a reference names.
pub open spec fn ref_id(r: SynsetRef) -> Seq<char> {
    match r {
        SynsetRef::Id(i) => i@,
    }
}

/// The texts of a list of strings.
pub open spec fn texts(v: Seq<String>) -> Seq<Seq<char>> {
    v.map_values(|s: String| s@)
}

impl View for Action {
    type V = ActionView;

    open spec fn view(&self) -> ActionView {
        match *self {
            Action::ChangeMembers { synset, members } => ActionView::ChangeMembers {
                synset: ref_id(synset),
                members: texts(members@),
            },
            Action::Definition { synset, definition } => ActionView::Definition {
                synset: ref_id(synset),
                definition: definition@,
            },
            Action::UpdateExample { synset, number, example, source } => ActionView::UpdateExample {
                synset: ref_id(synset),
                number: number as nat,
                example: example@,
                source: opt_text(source),
            },
            Action::DeleteExample { synset, number } => ActionView::DeleteExample {
                synset: ref_id(synset),
                number: number as nat,
            },
            Action::AddExample { synset, example, source } => ActionView::AddExample {
                synset: ref_id(synset),
                example: example@,
                source: opt_text(source),
            },
            Action::DeleteRelation { source, target, source_lemma, target_lemma, .. } => ActionView::DeleteRelation {
                source: ref_id(source),
                target: ref_id(target),
                source_lemma: opt_text(source_lemma),
                target_lemma: opt_text(target_lemma),
            },
            Action::AddRelation { source, relation, target, source_lemma, target_lemma, .. } => ActionView::AddRelation {
                source: ref_id(source),
                relation: relation@,
                target: ref_id(target),
                source_lemma: opt_text(source_lemma),
                target_lemma: opt_text(target_lemma),
            },
        }
    }
}

/// No relation change names a sense: relations are changed between whole synsets.
pub open spec fn senses_unset(a: Action) -> bool {
    match a {
        Action::DeleteRelation { source_sense, target_sense, .. } => source_sense is None && target_sense is None,
        Action::AddRelation { source_sense, target_sense, .. } => source_sense is None && target_sense is None,
        _ => true,
    }
}

/// An empty source is the same as no source.
pub open spec fn normalized_source(s: Seq<char>) -> Option<Seq<char>> {
    if s.len() == 0 {
        None
    } else {
        Some(s)
    }
}

/// An empty source is not a valid value: treat it as no source at all.
pub fn normalize_source(source: &str) -> (r: Option<String>)
    ensures
        opt_text(r) == normalized_source(source@),
{
    if source.is_empty() {
        None
    } else {
        Some(source.to_owned())
    }
}

/// The drafted lemmas, trimmed, without the empty ones.
pub open spec fn cleaned_lemmas(drafts: Seq<String>) -> Seq<Seq<char>>
    decreases drafts.len(),
{
    if drafts.len() == 0 {
        seq![]
    } else {
        let rest = cleaned_lemmas(drafts.drop_last());
        let t = trimmed(drafts.last()@);
        if t.len() == 0 {
            rest
        } else {
            rest.push(t)
        }
    }
}

/// The member change: the cleaned drafts, when they differ from the saved members.
pub open spec fn members_change(id: Seq<char>, original: Seq<String>, drafts: Seq<String>) -> Seq<ActionView> {
    if cleaned_lemmas(drafts) != texts(original) {
        seq![ActionView::ChangeMembers { synset: id, members: cleaned_lemmas(drafts) }]
    } else {
        seq![]
    }
}

/// The definition change, when the drafted definition differs from the saved one.
pub open spec fn definition_change(id: Seq<char>, original: Seq<char>, draft: Seq<char>) -> Seq<ActionView> {
    if draft != original {
        seq![ActionView::Definition { synset: id, definition: draft }]
    } else {
        seq![]
    }
}

/// The example updates: for each kept draft of an existing example whose text or source
/// differs from the saved example, in draft order.
pub open spec fn example_updates(id: Seq<char>, examples: Seq<Example>, drafts: Seq<ExampleDraft>) -> Seq<ActionView>
    decreases drafts.len(),
{
    if drafts.len() == 0 {
        seq![]
    } else {
        let d = drafts.last();
        example_updates(id, examples, drafts.drop_last()) + if !d.deleted && d.original_number is Some
            && 1 <= d.original_number->0 <= examples.len() && {
            let e = examples[d.original_number->0 - 1];
            d.text@ != e.text@ || normalized_source(d.source@) != opt_text(e.source)
        } {
            seq![ActionView::UpdateExample {
                synset: id,
                number: d.original_number->0 as nat,
                example: d.text@,
                source: normalized_source(d.source@),
            }]
        } else {
            seq![]
        }
    }
}

/// The original numbers of the drafts marked for deletion, in draft order.
pub open spec fn deleted_numbers(drafts: Seq<ExampleDraft>) -> Seq<usize>
    decreases drafts.len(),
{
    if drafts.len() == 0 {
        seq![]
    } else {
        deleted_numbers(drafts.drop_last()) + if drafts.last().deleted && drafts.last().original_number is Some {
            seq![drafts.last().original_number->0]
        } else {
            seq![]
        }
    }
}

/// `x` put into the descending sequence `s` before the first element not above it.
pub open spec fn insert_desc(s: Seq<usize>, x: usize) -> Seq<usize>
    decreases s.len(),
{
    if s.len() == 0 {
        seq![x]
    } else if s[0] <= x {
        seq![x] + s
    } else {
        seq![s[0]] + insert_desc(s.drop_first(), x)
    }
}

/// `s` sorted into descending order.
pub open spec fn sort_desc(s: Seq<usize>) -> Seq<usize>
    decreases s.len(),
{
    if s.len() == 0 {
        seq![]
    } else {
        insert_desc(sort_desc(s.drop_last()), s.last())
    }
}

/// The example deletions, highest number first.
pub open spec fn example_deletions(id: Seq<char>, drafts: Seq<ExampleDraft>) -> Seq<ActionView> {
    sort_desc(deleted_numbers(drafts)).map_values(|n: usize| ActionView::DeleteExample { synset: id, number: n as nat })
}

/// The example additions: each new, kept draft with some text besides whitespace.
pub open spec fn example_additions(id: Seq<char>, drafts: Seq<ExampleDraft>) -> Seq<ActionView>
    decreases drafts.len(),
{
    if drafts.len() == 0 {
        seq![]
    } else {
        let d = drafts.last();
        example_additions(id, drafts.drop_last()) + if d.original_number is None && !d.deleted && trimmed(d.text@).len() > 0 {
            seq![ActionView::AddExample { synset: id, example: d.text@, source: normalized_source(d.source@) }]
        } else {
            seq![]
        }
    }
}

/// The relation deletions, one per queued row.
pub open spec fn relation_deletions(id: Seq<char>, deletes: Seq<RelationKey>) -> Seq<ActionView> {
    deletes.map_values(|d: RelationKey| ActionView::DeleteRelation {
        source: id,
        target: d.target@,
        source_lemma: opt_text(d.source_lemma),
        target_lemma: opt_text(d.target_lemma),
    })
}

/// The relation addition for one queued row: stored as its `store_as` type, from this synset to
/// the target, or the other way round (lemmas swapped too) for a reverse-computed type.
pub open spec fn relation_addition(id: Seq<char>, a: PendingRelation) -> ActionView {
    if a.info.swapped {
        ActionView::AddRelation {
            source: a.target@,
            relation: a.info.store_as@,
            target: id,
            source_lemma: opt_text(a.target_lemma),
            target_lemma: opt_text(a.source_lemma),
        }
    } else {
        ActionView::AddRelation {
            source: id,
            relation: a.info.store_as@,
            target: a.target@,
            source_lemma: opt_text(a.source_lemma),
            target_lemma: opt_text(a.target_lemma),
        }
    }
}

/// The changes that bring a synset from its saved state to its drafts: members, definition,
/// example updates, example deletions (highest number first), example additions, relation
/// deletions and relation additions, in that order.
pub open spec fn changes_for(
    id: Seq<char>,
    original_members: Seq<String>,
    lemma_drafts: Seq<String>,
    original_definition: Seq<char>,
    draft_definition: Seq<char>,
    original_examples: Seq<Example>,
    drafts: Seq<ExampleDraft>,
    relation_deletes: Seq<RelationKey>,
    relation_adds: Seq<PendingRelation>,
) -> Seq<ActionView> {
    members_change(id, original_members, lemma_drafts) + definition_change(id, original_definition, draft_definition)
        + example_updates(id, original_examples, drafts) + example_deletions(id, drafts)
        + example_additions(id, drafts) + relation_deletions(id, relation_deletes)
        + relation_adds.map_values(|a: PendingRelation| relation_addition(id, a))
}


/// The views of a list of changes.
pub open spec fn action_views(v: Seq<Action>) -> Seq<ActionView> {
    v.map_values(|a: Action| a@)
}

proof fn lemma_views_push(v: Seq<Action>, a: Action)
    ensures
        action_views(v.push(a)) == action_views(v).push(a@),
{
    assert(action_views(v.push(a)) =~= action_views(v).push(a@));
}

proof fn lemma_insert_desc_at(s: Seq<usize>, x: usize, p: int)
    requires
        0 <= p <= s.len(),
        forall|j: int| 0 <= j < p ==> s[j] > x,
        p < s.len() ==> s[p] <= x,
    ensures
        insert_desc(s, x) == s.take(p) + seq![x] + s.skip(p),
    decreases p,
{
    if s.len() == 0 {
        assert(s.take(p) + seq![x] + s.skip(p) =~= seq![x]);
    } else if p == 0 {
        assert(s.take(0) + seq![x] + s.skip(0) =~= seq![x] + s);
    } else {
        let t = s.drop_first();
        lemma_insert_desc_at(t, x, p - 1);
        assert(s.take(p) + seq![x] + s.skip(p) =~= seq![s[0]] + (t.take(p - 1) + seq![x] + t.skip(p - 1)));
    }
}

fn same_texts(a: &Vec<String>, b: &[String]) -> (r: bool)
    ensures
        r == (texts(a@) == texts(b@)),
{
    if a.len() != b.len() {
        assert(texts(a@).len() != texts(b@).len());
        return false;
    }
    let mut i: usize = 0;
    while i < a.len()
        invariant
            a@.len() == b@.len(),
            i <= a.len(),
            forall|j: int| 0 <= j < i ==> a@[j]@ == b@[j]@,
        decreases a.len() - i,
    {
        if a[i] != b[i] {
            assert(texts(a@)[i as int] != texts(b@)[i as int]);
            return false;
        }
        i += 1;
    }
    assert(texts(a@) =~= texts(b@));
    true
}

fn clone_opt_string(o: &Option<String>) -> (r: Option<String>)
    ensures
        opt_text(r) == opt_text(*o),
{
    match o {
        Some(s) => Some(s.clone()),
        None => None,
    }
}

/// Compares the drafts of a synset (lemmas, definition, examples, relations) with its saved
/// state and returns the changes that bring it up to date; none when nothing changed.
///
/// Members go first, then the definition, then examples: updates, deletions in descending
/// number order (so that no deletion shifts a position a later one expects), then additions;
/// then relation deletions and additions.
pub fn build_actions(
    synset_id: &SynsetId,
    original_members: &[String],
    lemma_drafts: &[String],
    original_definition: &str,
    draft_definition: &str,
    original_examples: &[Example],
    drafts: &[ExampleDraft],
    relation_deletes: &[RelationKey],
    relation_adds: &[PendingRelation],
) -> (r: Vec<Action>)
    requires
        forall|k: int|
            0 <= k < drafts@.len() && !(#[trigger] drafts@[k]).deleted && drafts@[k].original_number is Some
                ==> drafts@[k].original_number->0 >= 1,
    ensures
        action_views(r@) == changes_for(
            synset_id@,
            original_members@,
            lemma_drafts@,
            original_definition@,
            draft_definition@,
            original_examples@,
            drafts@,
            relation_deletes@,
            relation_adds@,
        ),
        forall|k: int| 0 <= k < r@.len() ==> senses_unset(#[trigger] r@[k]),
{
    let ghost id = synset_id@;
    let mut actions: Vec<Action> = Vec::new();

    // Members.
    let mut members: Vec<String> = Vec::new();
    let mut i: usize = 0;
    while i < lemma_drafts.len()
        invariant
            id == synset_id@,
            i <= lemma_drafts@.len(),
            texts(members@) == cleaned_lemmas(lemma_drafts@.take(i as int)),
        decreases lemma_drafts@.len() - i,
    {
        let t = trim(lemma_drafts[i].as_str());
        proof {
            assert(lemma_drafts@.take(i + 1).drop_last() =~= lemma_drafts@.take(i as int));
        }
        if !t.as_str().is_empty() {
            let ghost before = members@;
            members.push(t);
            assert(texts(members@) =~= texts(before).push(trimmed(lemma_drafts@[i as int]@)));
        }
        i += 1;
    }
    assert(lemma_drafts@.take(lemma_drafts@.len() as int) =~= lemma_drafts@);
    if !same_texts(&members, original_members) {
        let a = Action::ChangeMembers { synset: SynsetRef::Id(synset_id.clone()), members };
        proof { lemma_views_push(actions@, a); }
        actions.push(a);
    }
    let ghost part1 = members_change(id, original_members@, lemma_drafts@);
    assert(action_views(actions@) =~= part1);

    // Definition.
    if !str_eq(draft_definition, original_definition) {
        let a = Action::Definition { synset: SynsetRef::Id(synset_id.clone()), definition: draft_definition.to_owned() };
        proof { lemma_views_push(actions@, a); }
        actions.push(a);
    }
    let ghost part2 = part1 + definition_change(id, original_definition@, draft_definition@);
    assert(action_views(actions@) =~= part2);

    // Example updates.
    let mut i: usize = 0;
    while i < drafts.len()
        invariant
            id == synset_id@,
            forall|k: int|
                0 <= k < drafts@.len() && !(#[trigger] drafts@[k]).deleted && drafts@[k].original_number is Some
                    ==> drafts@[k].original_number->0 >= 1,
            i <= drafts@.len(),
            action_views(actions@) == part2 + example_updates(id, original_examples@, drafts@.take(i as int)),
            forall|k: int| 0 <= k < actions@.len() ==> senses_unset(#[trigger] actions@[k]),
        decreases drafts@.len() - i,
    {
        let draft = &drafts[i];
        proof {
            assert(drafts@.take(i + 1).drop_last() =~= drafts@.take(i as int));
            assert(drafts@.take(i + 1).last() == drafts@[i as int]);
        }
        if !draft.deleted {
            if let Some(number) = draft.original_number {
                if number - 1 < original_examples.len() {
                    let original = &original_examples[number - 1];
                    let source = normalize_source(draft.source.as_str());
                    let same_source = match (&source, &original.source) {
                        (Some(a), Some(b)) => *a == *b,
                        (None, None) => true,
                        _ => false,
                    };
                    assert(same_source == (opt_text(source) == opt_text(original.source)));
                    assert(original_examples@[number - 1] == *original);
                    if draft.text != original.text || !same_source {
                        let a = Action::UpdateExample {
                            synset: SynsetRef::Id(synset_id.clone()),
                            number,
                            example: draft.text.clone(),
                            source,
                        };
                        proof { lemma_views_push(actions@, a); }
                        actions.push(a);
                    }
                }
            }
        }
        assert(action_views(actions@) =~= part2 + example_updates(id, original_examples@, drafts@.take(i + 1)));
        i += 1;
    }
    assert(drafts@.take(drafts@.len() as int) =~= drafts@);
    let ghost part3 = part2 + example_updates(id, original_examples@, drafts@);

    // Example deletions, highest number first.
    let mut sorted: Vec<usize> = Vec::new();
    let mut i: usize = 0;
    while i < drafts.len()
        invariant
            id == synset_id@,
            i <= drafts@.len(),
            sorted@ == sort_desc(deleted_numbers(drafts@.take(i as int))),
        decreases drafts@.len() - i,
    {
        proof {
            assert(drafts@.take(i + 1).drop_last() =~= drafts@.take(i as int));
        }
        if drafts[i].deleted {
            if let Some(n) = drafts[i].original_number {
                let mut p: usize = 0;
                while p < sorted.len() && sorted[p] > n
                    invariant
            id == synset_id@,
                        p <= sorted.len(),
                        forall|j: int| 0 <= j < p ==> sorted@[j] > n,
                    decreases sorted.len() - p,
                {
                    p += 1;
                }
                proof {
                    lemma_insert_desc_at(sorted@, n, p as int);
                    let ns = deleted_numbers(drafts@.take(i + 1));
                    assert(ns =~= deleted_numbers(drafts@.take(i as int)).push(n));
                    assert(ns.drop_last() =~= deleted_numbers(drafts@.take(i as int)));
                }
                sorted.insert(p, n);
                assert(sorted@ =~= sort_desc(deleted_numbers(drafts@.take(i + 1))));
            } else {
                assert(deleted_numbers(drafts@.take(i + 1)) =~= deleted_numbers(drafts@.take(i as int)));
            }
        } else {
            assert(deleted_numbers(drafts@.take(i + 1)) =~= deleted_numbers(drafts@.take(i as int)));
        }
        i += 1;
    }
    let mut i: usize = 0;
    while i < sorted.len()
        invariant
            id == synset_id@,
            i <= sorted@.len(),
            sorted@ == sort_desc(deleted_numbers(drafts@)),
            action_views(actions@) == part3 + sorted@.take(i as int).map_values(
                |n: usize| ActionView::DeleteExample { synset: id, number: n as nat },
            ),
            forall|k: int| 0 <= k < actions@.len() ==> senses_unset(#[trigger] actions@[k]),
        decreases sorted@.len() - i,
    {
        let a = Action::DeleteExample { synset: SynsetRef::Id(synset_id.clone()), number: sorted[i] };
        proof { lemma_views_push(actions@, a); }
        actions.push(a);
        assert(action_views(actions@) =~= part3 + sorted@.take(i + 1).map_values(
            |n: usize| ActionView::DeleteExample { synset: id, number: n as nat },
        ));
        i += 1;
    }
    assert(sorted@.take(sorted@.len() as int) =~= sorted@);
    let ghost part4 = part3 + example_deletions(id, drafts@);
    assert(action_views(actions@) =~= part4);

    // Example additions.
    let mut i: usize = 0;
    while i < drafts.len()
        invariant
            id == synset_id@,
            i <= drafts@.len(),
            action_views(actions@) == part4 + example_additions(id, drafts@.take(i as int)),
            forall|k: int| 0 <= k < actions@.len() ==> senses_unset(#[trigger] actions@[k]),
        decreases drafts@.len() - i,
    {
        let draft = &drafts[i];
        proof {
            assert(drafts@.take(i + 1).drop_last() =~= drafts@.take(i as int));
            assert(drafts@.take(i + 1).last() == drafts@[i as int]);
        }
        if draft.original_number.is_none() && !draft.deleted {
            let t = trim(draft.text.as_str());
            if !t.as_str().is_empty() {
                let a = Action::AddExample {
                    synset: SynsetRef::Id(synset_id.clone()),
                    example: draft.text.clone(),
                    source: normalize_source(draft.source.as_str()),
                };
                proof { lemma_views_push(actions@, a); }
                actions.push(a);
            }
        }
        assert(action_views(actions@) =~= part4 + example_additions(id, drafts@.take(i + 1)));
        i += 1;
    }
    let ghost part5 = part4 + example_additions(id, drafts@);

    // Relation deletions.
    let mut i: usize = 0;
    while i < relation_deletes.len()
        invariant
            id == synset_id@,
            i <= relation_deletes@.len(),
            action_views(actions@) == part5 + relation_deletions(id, relation_deletes@.take(i as int)),
            forall|k: int| 0 <= k < actions@.len() ==> senses_unset(#[trigger] actions@[k]),
        decreases relation_deletes@.len() - i,
    {
        let d = &relation_deletes[i];
        let a = Action::DeleteRelation {
            source: SynsetRef::Id(synset_id.clone()),
            source_sense: None,
            target: SynsetRef::Id(d.target.clone()),
            target_sense: None,
            source_lemma: clone_opt_string(&d.source_lemma),
            target_lemma: clone_opt_string(&d.target_lemma),
        };
        proof { lemma_views_push(actions@, a); }
        actions.push(a);
        assert(action_views(actions@) =~= part5 + relation_deletions(id, relation_deletes@.take(i + 1)));
        i += 1;
    }
    assert(relation_deletes@.take(relation_deletes@.len() as int) =~= relation_deletes@);
    let ghost part6 = part5 + relation_deletions(id, relation_deletes@);

    // Relation additions.
    let mut i: usize = 0;
    while i < relation_adds.len()
        invariant
            id == synset_id@,
            i <= relation_adds@.len(),
            action_views(actions@) == part6 + relation_adds@.take(i as int).map_values(
                |a: PendingRelation| relation_addition(id, a),
            ),
            forall|k: int| 0 <= k < actions@.len() ==> senses_unset(#[trigger] actions@[k]),
        decreases relation_adds@.len() - i,
    {
        let add = &relation_adds[i];
        let a = if add.info.swapped {
            Action::AddRelation {
                source: SynsetRef::Id(add.target.clone()),
                source_sense: None,
                relation: add.info.store_as.to_owned(),
                target: SynsetRef::Id(synset_id.clone()),
                target_sense: None,
                source_lemma: clone_opt_string(&add.target_lemma),
                target_lemma: clone_opt_string(&add.source_lemma),
            }
        } else {
            Action::AddRelation {
                source: SynsetRef::Id(synset_id.clone()),
                source_sense: None,
                relation: add.info.store_as.to_owned(),
                target: SynsetRef::Id(add.target.clone()),
                target_sense: None,
                source_lemma: clone_opt_string(&add.source_lemma),
                target_lemma: clone_opt_string(&add.target_lemma),
            }
        };
        proof { lemma_views_push(actions@, a); }
        actions.push(a);
        assert(action_views(actions@) =~= part6 + relation_adds@.take(i + 1).map_values(
            |a: PendingRelation| relation_addition(id, a),
        ));
        i += 1;
    }
    assert(relation_adds@.take(relation_adds@.len() as int) =~= relation_adds@);
    actions
}


/// Every number of `s` is at least as large as the ones after it.
pub open spec fn descending(s: Seq<usize>) -> bool {
    forall|i: int, j: int| 0 <= i < j < s.len() ==> s[i] >= s[j]
}

proof fn lemma_insert_desc(s: Seq<usize>, x: usize)
    requires
        descending(s),
    ensures
        descending(insert_desc(s, x)),
        insert_desc(s, x).to_multiset() == s.to_multiset().insert(x),
    decreases s.len(),
{
    broadcast use vstd::seq_lib::group_to_multiset_ensures, vstd::multiset::group_multiset_axioms;
    if s.len() == 0 {
        assert(insert_desc(s, x) =~= s.push(x));
    } else if s[0] <= x {
        vstd::seq_lib::lemma_multiset_commutative(seq![x], s);
        assert(seq![x].to_multiset() =~= Seq::<usize>::empty().push(x).to_multiset()) by {
            assert(seq![x] =~= Seq::<usize>::empty().push(x));
        }
        assert(insert_desc(s, x).to_multiset() =~= s.to_multiset().insert(x));
    } else {
        let t = s.drop_first();
        let r = insert_desc(t, x);
        assert(descending(t)) by {
            assert forall|i: int, j: int| 0 <= i < j < t.len() implies t[i] >= t[j] by {
                assert(t[i] == s[i + 1] && t[j] == s[j + 1]);
            }
        }
        lemma_insert_desc(t, x);
        assert(s =~= seq![s[0]] + t);
        vstd::seq_lib::lemma_multiset_commutative(seq![s[0]], r);
        vstd::seq_lib::lemma_multiset_commutative(seq![s[0]], t);
        assert forall|k: int| 0 <= k < r.len() implies r[k] <= s[0] by {
            assert(r.to_multiset().count(r[k]) > 0);
            if r[k] != x {
                assert(t.to_multiset().count(r[k]) > 0);
                assert(t.contains(r[k]));
                let w = choose|w: int| 0 <= w < t.len() && t[w] == r[k];
                assert(s[w + 1] == r[k]);
            }
        }
        assert forall|i: int, j: int| 0 <= i < j < insert_desc(s, x).len() implies insert_desc(s, x)[i] >= insert_desc(s, x)[j] by {
            if i > 0 {
                assert(insert_desc(s, x)[i] == r[i - 1] && insert_desc(s, x)[j] == r[j - 1]);
            } else {
                assert(insert_desc(s, x)[j] == r[j - 1]);
            }
        }
        assert(insert_desc(s, x).to_multiset() =~= s.to_multiset().insert(x));
    }
}

proof fn lemma_sort_desc(s: Seq<usize>)
    ensures
        descending(sort_desc(s)),
        sort_desc(s).to_multiset() == s.to_multiset(),
    decreases s.len(),
{
    broadcast use vstd::seq_lib::group_to_multiset_ensures;
    if s.len() > 0 {
        lemma_sort_desc(s.drop_last());
        lemma_insert_desc(sort_desc(s.drop_last()), s.last());
        assert(s.drop_last().push(s.last()) =~= s);
    } else {
        assert(s.to_multiset() =~= vstd::multiset::Multiset::empty());
        assert(sort_desc(s).to_multiset() =~= vstd::multiset::Multiset::empty());
    }
}

/// Law of example deletions: the changes delete exactly the examples whose drafts are marked
/// for deletion, each as often as it is marked, highest number first, so that no deletion
/// shifts the position that a later one names.
pub proof fn law_deletions_descending(drafts: Seq<ExampleDraft>)
    ensures
        descending(sort_desc(deleted_numbers(drafts))),
        sort_desc(deleted_numbers(drafts)).to_multiset() == deleted_numbers(drafts).to_multiset(),
{
    lemma_sort_desc(deleted_numbers(drafts));
}


/// The lemma drafts after the row at `from` is dragged onto the row at `to`: it is taken out
/// and put back at `to` (at the end when `to` is past it), which lands it after the target when
/// dragged down and before it when dragged up; dropping a row on itself changes nothing.
pub fn move_lemma_draft(drafts: Vec<String>, from: usize, to: usize) -> (r: Vec<String>)
    requires
        from != to ==> from < drafts@.len(),
    ensures
        r@ == if from == to {
            drafts@
        } else {
            drafts@.remove(from as int).insert(
                if to < drafts@.len() - 1 { to as int } else { drafts@.len() - 1 },
                drafts@[from as int],
            )
        },
{
    let mut d = drafts;
    if from != to {
        let item = d.remove(from);
        let at = if to < d.len() { to } else { d.len() };
        d.insert(at, item);
    }
    d
}

/// The example drafts after the bin of row `index` is pressed: a new row is taken out, an
/// existing one is marked for deletion (its action is built from the mark).
pub fn delete_example_draft(drafts: Vec<ExampleDraft>, index: usize) -> (r: Vec<ExampleDraft>)
    requires
        index < drafts@.len(),
    ensures
        drafts@[index as int].original_number is None ==> r@ == drafts@.remove(index as int),
        drafts@[index as int].original_number is Some ==> r@ == drafts@.update(
            index as int,
            (ExampleDraft { deleted: true, ..drafts@[index as int] }),
        ),
{
    let mut d = drafts;
    let ghost before = d@;
    if d[index].original_number.is_none() {
        d.remove(index);
    } else {
        let mut row = d.remove(index);
        row.deleted = true;
        d.insert(index, row);
        assert(d@ =~= before.update(index as int, (ExampleDraft { deleted: true, ..before[index as int] })));
    }
    d
}

/// Binning an existing example row queues its deletion: the drafts it leaves delete that
/// example's number.
pub proof fn law_binned_example_is_deleted(drafts: Seq<ExampleDraft>, i: int)
    requires
        0 <= i < drafts.len(),
        drafts[i].original_number is Some,
    ensures
        deleted_numbers(drafts.update(i, (ExampleDraft { deleted: true, ..drafts[i] }))).contains(
            drafts[i].original_number->0,
        ),
    decreases drafts.len(),
{
    let d = ExampleDraft { deleted: true, ..drafts[i] };
    let u = drafts.update(i, d);
    let n = drafts[i].original_number->0;
    if i == drafts.len() - 1 {
        assert(u.last() == d);
        let tail = deleted_numbers(u);
        assert(tail == deleted_numbers(u.drop_last()) + seq![n]);
        assert(tail[tail.len() - 1] == n);
    } else {
        assert(u.drop_last() =~= drafts.drop_last().update(i, d));
        law_binned_example_is_deleted(drafts.drop_last(), i);
        let head = deleted_numbers(u.drop_last());
        let w = choose|w: int| 0 <= w < head.len() && head[w] == n;
        let whole = deleted_numbers(u);
        assert(whole == head + if u.last().deleted && u.last().original_number is Some {
            seq![u.last().original_number->0]
        } else {
            seq![]
        });
        assert(whole[w] == n);
    }
}

// ---------------------------------------------------------------------------------------------
// Views of a synset for the editor.
// ---------------------------------------------------------------------------------------------

impl ExampleDraft {
    /// One draft per saved example, numbered from 1, with an absent source drafted as empty.
    pub fn from_examples(examples: &[Example]) -> (r: Vec<ExampleDraft>)
        ensures
            r@.len() == examples@.len(),
            forall|i: int| 0 <= i < r@.len() ==> untouched_draft(#[trigger] r@[i], examples@[i], i),
    {
        let mut out: Vec<ExampleDraft> = Vec::new();
        let mut i: usize = 0;
        while i < examples.len()
            invariant
                i <= examples@.len(),
                out@.len() == i,
                forall|k: int| 0 <= k < i ==> untouched_draft(#[trigger] out@[k], examples@[k], k),
            decreases examples@.len() - i,
        {
            let ex = &examples[i];
            let source = match &ex.source {
                Some(s) => s.clone(),
                None => String::new(),
            };
            out.push(ExampleDraft { original_number: Some(i + 1), text: ex.text.clone(), source, deleted: false });
            i += 1;
        }
        out
    }
}

/// The targets of synset relations, as shown: no lemmas.
pub fn map_ss_rels(rels: Vec<SynsetId>) -> (r: Vec<(SynsetId, Option<String>, Option<String>)>)
    ensures
        r@.len() == rels@.len(),
        forall|i: int| 0 <= i < r@.len() ==> (#[trigger] r@[i]).0 == rels@[i] && r@[i].1 is None && r@[i].2 is None,
{
    let mut out: Vec<(SynsetId, Option<String>, Option<String>)> = Vec::new();
    for id in it: rels.into_iter()
        invariant
            it.seq() == rels@,
            out@.len() == it.index(),
            forall|i: int| 0 <= i < out@.len() ==> (#[trigger] out@[i]).0 == rels@[i] && out@[i].1 is None && out@[i].2 is None,
    {
        out.push((id, None, None));
    }
    out
}

/// The targets of sense relations, as shown: with the source and target lemmas.
pub fn map_se_rels(rels: Vec<SenseRelation>) -> (r: Vec<(SynsetId, Option<String>, Option<String>)>)
    ensures
        r@.len() == rels@.len(),
        forall|i: int| 0 <= i < r@.len() ==> (#[trigger] r@[i]).0 == rels@[i].target_synset
            && r@[i].1 == Some(rels@[i].source_lemma) && r@[i].2 == Some(rels@[i].target_lemma),
{
    let mut out: Vec<(SynsetId, Option<String>, Option<String>)> = Vec::new();
    for rel in it: rels.into_iter()
        invariant
            it.seq() == rels@,
            out@.len() == it.index(),
            forall|i: int| 0 <= i < out@.len() ==> (#[trigger] out@[i]).0 == rels@[i].target_synset
                && out@[i].1 == Some(rels@[i].source_lemma) && out@[i].2 == Some(rels@[i].target_lemma),
    {
        out.push((rel.target_synset, Some(rel.source_lemma), Some(rel.target_lemma)));
    }
    out
}

/// The part-of-speech values a lexicographer file allows, by the prefix of its name.
pub open spec fn pos_options(lexfile: Seq<char>) -> Seq<(Seq<char>, Seq<char>)> {
    if "noun"@.len() <= lexfile.len() && lexfile.take("noun"@.len() as int) == "noun"@ {
        seq![("n"@, "noun"@)]
    } else if "verb"@.len() <= lexfile.len() && lexfile.take("verb"@.len() as int) == "verb"@ {
        seq![("v"@, "verb"@)]
    } else if "adv"@.len() <= lexfile.len() && lexfile.take("adv"@.len() as int) == "adv"@ {
        seq![("r"@, "adverb"@)]
    } else if "adj"@.len() <= lexfile.len() && lexfile.take("adj"@.len() as int) == "adj"@ {
        seq![("a"@, "adjective"@), ("s"@, "adjective satellite"@)]
    } else {
        seq![]
    }
}

/// The part-of-speech values a lexicographer file allows, as `(code, label)`.
pub fn pos_options_for_lexfile(lexfile: &str) -> (r: Vec<(&'static str, &'static str)>)
    ensures
        r@.map_values(|p: (&'static str, &'static str)| (p.0@, p.1@)) == pos_options(lexfile@),
{
    let r = if starts_with(lexfile, "noun") {
        vec![("n", "noun")]
    } else if starts_with(lexfile, "verb") {
        vec![("v", "verb")]
    } else if starts_with(lexfile, "adv") {
        vec![("r", "adverb")]
    } else if starts_with(lexfile, "adj") {
        vec![("a", "adjective"), ("s", "adjective satellite")]
    } else {
        vec![]
    };
    proof {
        assert(lexfile@.subrange(0, "noun"@.len() as int) == lexfile@.take("noun"@.len() as int));
        assert(lexfile@.subrange(0, "verb"@.len() as int) == lexfile@.take("verb"@.len() as int));
        assert(lexfile@.subrange(0, "adv"@.len() as int) == lexfile@.take("adv"@.len() as int));
        assert(lexfile@.subrange(0, "adj"@.len() as int) == lexfile@.take("adj"@.len() as int));
    }
    assert(r@.map_values(|p: (&'static str, &'static str)| (p.0@, p.1@)) =~= pos_options(lexfile@));
    r
}

/// The lemma `lemma` once for each frame of `subs` that is `code`.
pub open spec fn member_frames(lemma: Seq<char>, subs: Seq<String>, code: Seq<char>) -> Seq<Seq<char>>
    decreases subs.len(),
{
    if subs.len() == 0 {
        seq![]
    } else {
        member_frames(lemma, subs.drop_last(), code) + if subs.last()@ == code {
            seq![lemma]
        } else {
            seq![]
        }
    }
}

/// For each member in order, its lemma once for each of its sense's frames that is `code`.
pub open spec fn frame_lemmas(ms: Seq<crate::model::Member>, code: Seq<char>) -> Seq<Seq<char>>
    decreases ms.len(),
{
    if ms.len() == 0 {
        seq![]
    } else {
        frame_lemmas(ms.drop_last(), code) + member_frames(ms.last().lemma@, ms.last().sense.subcat@, code)
    }
}

/// The lemmas of a synset grouped by subcategorisation frame: one entry per frame code, in the
/// order the codes are first met, holding the lemmas of the members whose sense has the frame.
pub fn subcats(synset: &MemberSynset) -> (r: Vec<(String, Vec<String>)>)
    ensures
        forall|a: int, b: int| 0 <= a < b < r@.len() ==> (#[trigger] r@[a]).0@ != (#[trigger] r@[b]).0@,
        forall|q: int| 0 <= q < r@.len() ==> texts((#[trigger] r@[q]).1@) == frame_lemmas(synset.members@, r@[q].0@),
        forall|c: Seq<char>| #[trigger] frame_lemmas(synset.members@, c).len() > 0 ==> exists|q: int| 0 <= q < r@.len() && (#[trigger] r@[q]).0@ == c,
{
    let ms = &synset.members;
    let mut out: Vec<(String, Vec<String>)> = Vec::new();
    let mut k: usize = 0;
    while k < ms.len()
        invariant
            *ms == synset.members,
            k <= ms@.len(),
            forall|a: int, b: int| 0 <= a < b < out@.len() ==> (#[trigger] out@[a]).0@ != (#[trigger] out@[b]).0@,
            forall|q: int| 0 <= q < out@.len() ==> texts((#[trigger] out@[q]).1@) == frame_lemmas(ms@.take(k as int), out@[q].0@),
            forall|c: Seq<char>| #[trigger] frame_lemmas(ms@.take(k as int), c).len() > 0 ==> exists|q: int| 0 <= q < out@.len() && (#[trigger] out@[q]).0@ == c,
        decreases ms@.len() - k,
    {
        let m = &ms[k];
        let subs = &m.sense.subcat;
        let ghost base = ms@.take(k as int);
        proof {
            assert(ms@.take(k + 1).drop_last() =~= base);
        }
        let mut j: usize = 0;
        while j < subs.len()
            invariant
                *ms == synset.members,
                k < ms@.len(),
                *m == ms@[k as int],
                *subs == m.sense.subcat,
                base == ms@.take(k as int),
                j <= subs@.len(),
                forall|a: int, b: int| 0 <= a < b < out@.len() ==> (#[trigger] out@[a]).0@ != (#[trigger] out@[b]).0@,
                forall|q: int| 0 <= q < out@.len() ==> texts((#[trigger] out@[q]).1@) == frame_lemmas(base, out@[q].0@) + member_frames(m.lemma@, subs@.take(j as int), out@[q].0@),
                forall|c: Seq<char>| (#[trigger] frame_lemmas(base, c) + member_frames(m.lemma@, subs@.take(j as int), c)).len() > 0 ==> exists|q: int| 0 <= q < out@.len() && (#[trigger] out@[q]).0@ == c,
            decreases subs@.len() - j,
        {
            let code = &subs[j];
            proof {
                assert(subs@.take(j + 1).drop_last() =~= subs@.take(j as int));
            }
            let mut p: usize = 0;
            while p < out.len() && out[p].0 != *code
                invariant
                    p <= out@.len(),
                    forall|q: int| 0 <= q < p ==> (#[trigger] out@[q]).0@ != code@,
                decreases out@.len() - p,
            {
                p += 1;
            }
            let ghost before = out@;
            if p < out.len() {
                out[p].1.push(m.lemma.clone());
            } else {
                let mut v: Vec<String> = Vec::new();
                v.push(m.lemma.clone());
                out.push((code.clone(), v));
            }
            proof {
                assert forall|q: int| 0 <= q < out@.len() implies texts((#[trigger] out@[q]).1@) == frame_lemmas(base, out@[q].0@) + member_frames(m.lemma@, subs@.take(j + 1), out@[q].0@) by {
                    let c = out@[q].0@;
                    assert(member_frames(m.lemma@, subs@.take(j + 1), c) == member_frames(m.lemma@, subs@.take(j as int), c) + if code@ == c {
                        seq![m.lemma@]
                    } else {
                        seq![]
                    });
                    if q < before.len() {
                        assert(out@[q].0 == before[q].0);
                        if q == p as int {
                            assert(texts(out@[q].1@) =~= texts(before[q].1@).push(m.lemma@));
                        } else {
                            assert(out@[q].1 == before[q].1);
                            assert(member_frames(m.lemma@, subs@.take(j as int), c) + seq![] =~= member_frames(m.lemma@, subs@.take(j as int), c));
                        }
                    } else {
                        assert(member_frames(m.lemma@, subs@.take(j as int), c).len() == 0 || exists|q2: int| 0 <= q2 < before.len() && (#[trigger] before[q2]).0@ == c);
                        assert(frame_lemmas(base, c) + member_frames(m.lemma@, subs@.take(j as int), c) =~= Seq::<Seq<char>>::empty()) by {
                            if (frame_lemmas(base, c) + member_frames(m.lemma@, subs@.take(j as int), c)).len() > 0 {
                                let q2 = choose|q2: int| 0 <= q2 < before.len() && (#[trigger] before[q2]).0@ == c;
                                assert(before[q2].0@ != code@);
                            }
                        }
                        assert(texts(out@[q].1@) =~= seq![m.lemma@]);
                    }
                }
                assert forall|a: int, b: int| 0 <= a < b < out@.len() implies (#[trigger] out@[a]).0@ != (#[trigger] out@[b]).0@ by {
                    if b < before.len() {
                        assert(out@[a].0 == before[a].0 && out@[b].0 == before[b].0);
                    } else {
                        assert(out@[a].0 == before[a].0);
                    }
                }
                assert forall|c: Seq<char>| (#[trigger] frame_lemmas(base, c) + member_frames(m.lemma@, subs@.take(j + 1), c)).len() > 0 implies exists|q: int| 0 <= q < out@.len() && (#[trigger] out@[q]).0@ == c by {
                    assert(member_frames(m.lemma@, subs@.take(j + 1), c) == member_frames(m.lemma@, subs@.take(j as int), c) + if code@ == c {
                        seq![m.lemma@]
                    } else {
                        seq![]
                    });
                    if code@ == c {
                        if p < before.len() {
                            assert(out@[p as int].0@ == c);
                        } else {
                            assert(out@[before.len() as int].0@ == c);
                        }
                    } else {
                        assert(frame_lemmas(base, c) + member_frames(m.lemma@, subs@.take(j + 1), c) =~= frame_lemmas(base, c) + member_frames(m.lemma@, subs@.take(j as int), c));
                        let q2 = choose|q2: int| 0 <= q2 < before.len() && (#[trigger] before[q2]).0@ == c;
                        assert(out@[q2].0 == before[q2].0);
                    }
                }
            }
            j += 1;
        }
        proof {
            assert(subs@.take(subs@.len() as int) =~= subs@);
            assert forall|c: Seq<char>| #[trigger] frame_lemmas(ms@.take(k + 1), c) == frame_lemmas(base, c) + member_frames(m.lemma@, subs@, c) by {}
        }
        k += 1;
    }
    proof {
        assert(ms@.take(ms@.len() as int) =~= ms@);
    }
    out
}


/// `d` is the untouched draft of the example `e` at position `i`.
pub open spec fn untouched_draft(d: ExampleDraft, e: Example, i: int) -> bool {
    &&& d.original_number == Some((i + 1) as usize)
    &&& d.text@ == e.text@
    &&& d.source@ == match e.source {
        Some(s) => s@,
        None => Seq::<char>::empty(),
    }
    &&& !d.deleted
}

proof fn lemma_untouched_parts(id: Seq<char>, examples: Seq<Example>, ds: Seq<ExampleDraft>)
    requires
        ds.len() <= examples.len(),
        examples.len() < usize::MAX,
        forall|i: int| 0 <= i < ds.len() ==> untouched_draft(#[trigger] ds[i], examples[i], i),
        forall|i: int| 0 <= i < examples.len() && (#[trigger] examples[i]).source is Some ==> (examples[i].source->0)@.len() > 0,
    ensures
        example_updates(id, examples, ds) == Seq::<ActionView>::empty(),
        deleted_numbers(ds) == Seq::<usize>::empty(),
        example_additions(id, ds) == Seq::<ActionView>::empty(),
    decreases ds.len(),
{
    if ds.len() > 0 {
        let rest = ds.drop_last();
        assert forall|i: int| 0 <= i < rest.len() implies untouched_draft(#[trigger] rest[i], examples[i], i) by {
            assert(rest[i] == ds[i]);
        }
        lemma_untouched_parts(id, examples, rest);
        let n = ds.len() - 1;
        let d = ds[n];
        assert(untouched_draft(d, examples[n], n));
        assert(d.original_number->0 - 1 == n);
        let e = examples[n];
        if e.source is Some {
            assert((e.source->0)@.len() > 0);
        }
        assert(normalized_source(d.source@) == opt_text(e.source));
        assert(example_updates(id, examples, ds) =~= Seq::<ActionView>::empty());
        assert(deleted_numbers(ds) =~= Seq::<usize>::empty());
        assert(example_additions(id, ds) =~= Seq::<ActionView>::empty());
    }
}

/// Law of the editor: drafts that were left as they were loaded (the lemmas as saved, up to
/// surrounding whitespace and empty rows; the definition as saved; every example untouched; no
/// relation queued) give no change at all. An example whose source is the empty string is the
/// exception: its draft's empty source stands for no source, so it is reported as changed.
pub proof fn law_unchanged_drafts_change_nothing(
    id: Seq<char>,
    original_members: Seq<String>,
    lemma_drafts: Seq<String>,
    definition: Seq<char>,
    examples: Seq<Example>,
    drafts: Seq<ExampleDraft>,
)
    requires
        cleaned_lemmas(lemma_drafts) == texts(original_members),
        drafts.len() == examples.len(),
        examples.len() < usize::MAX,
        forall|i: int| 0 <= i < drafts.len() ==> untouched_draft(#[trigger] drafts[i], examples[i], i),
        forall|i: int| 0 <= i < examples.len() && (#[trigger] examples[i]).source is Some ==> (examples[i].source->0)@.len() > 0,
    ensures
        changes_for(id, original_members, lemma_drafts, definition, definition, examples, drafts, seq![], seq![])
            == Seq::<ActionView>::empty(),
{
    lemma_untouched_parts(id, examples, drafts);
    assert(sort_desc(Seq::<usize>::empty()) == Seq::<usize>::empty());
    assert(example_deletions(id, drafts) =~= Seq::<ActionView>::empty());
    assert(relation_deletions(id, Seq::<RelationKey>::empty()) =~= Seq::<ActionView>::empty());
    assert(Seq::<PendingRelation>::empty().map_values(|a: PendingRelation| relation_addition(id, a)) =~= Seq::<ActionView>::empty());
    assert(changes_for(id, original_members, lemma_drafts, definition, definition, examples, drafts, seq![], seq![])
        =~= Seq::<ActionView>::empty());
}


proof fn lemma_clean_lemmas_kept(members: Seq<String>)
    requires
        forall|i: int| 0 <= i < members.len() ==> trimmed((#[trigger] members[i])@) == members[i]@ && members[i]@.len() > 0,
    ensures
        cleaned_lemmas(members) == texts(members),
    decreases members.len(),
{
    if members.len() > 0 {
        let rest = members.drop_last();
        assert forall|i: int| 0 <= i < rest.len() implies trimmed((#[trigger] rest[i])@) == rest[i]@ && rest[i]@.len() > 0 by {
            assert(rest[i] == members[i]);
        }
        lemma_clean_lemmas_kept(rest);
        assert(trimmed(members.last()@) == members.last()@);
        assert(texts(members) =~= texts(rest).push(members.last()@));
    }
}

/// Law of the editor, from the saved state: drafting the lemmas as saved (each already
/// trimmed and non-empty), the definition as saved and the examples as `from_examples` drafts
/// them, and queuing no relation, gives no change at all, provided no saved example has the
/// empty string as its source.
pub proof fn law_redrafting_saved_state_changes_nothing(
    id: Seq<char>,
    original_members: Seq<String>,
    definition: Seq<char>,
    examples: Seq<Example>,
    drafts: Seq<ExampleDraft>,
)
    requires
        forall|i: int| 0 <= i < original_members.len()
            ==> trimmed((#[trigger] original_members[i])@) == original_members[i]@ && original_members[i]@.len() > 0,
        drafts.len() == examples.len(),
        examples.len() < usize::MAX,
        forall|i: int| 0 <= i < drafts.len() ==> untouched_draft(#[trigger] drafts[i], examples[i], i),
        forall|i: int| 0 <= i < examples.len() && (#[trigger] examples[i]).source is Some ==> (examples[i].source->0)@.len() > 0,
    ensures
        changes_for(id, original_members, original_members, definition, definition, examples, drafts, seq![], seq![])
            == Seq::<ActionView>::empty(),
{
    lemma_clean_lemmas_kept(original_members);
    law_unchanged_drafts_change_nothing(id, original_members, original_members, definition, examples, drafts);
}


proof fn lemma_update_listed(id: Seq<char>, examples: Seq<Example>, drafts: Seq<ExampleDraft>, k: int)
    requires
        0 <= k < drafts.len(),
        !drafts[k].deleted,
        drafts[k].original_number is Some,
        1 <= drafts[k].original_number->0 <= examples.len(),
        drafts[k].text@ != examples[drafts[k].original_number->0 - 1].text@
            || normalized_source(drafts[k].source@) != opt_text(examples[drafts[k].original_number->0 - 1].source),
    ensures
        example_updates(id, examples, drafts).contains(ActionView::UpdateExample {
            synset: id,
            number: drafts[k].original_number->0 as nat,
            example: drafts[k].text@,
            source: normalized_source(drafts[k].source@),
        }),
    decreases drafts.len(),
{
    let d = drafts[k];
    let a = ActionView::UpdateExample {
        synset: id,
        number: d.original_number->0 as nat,
        example: d.text@,
        source: normalized_source(d.source@),
    };
    let rest = example_updates(id, examples, drafts.drop_last());
    let whole = example_updates(id, examples, drafts);
    if k == drafts.len() - 1 {
        assert(whole[rest.len() as int] == a);
    } else {
        assert(drafts.drop_last()[k] == d);
        lemma_update_listed(id, examples, drafts.drop_last(), k);
        let i = choose|i: int| 0 <= i < rest.len() && rest[i] == a;
        assert(whole[i] == a);
    }
}

/// Law of the editor on examples: every kept draft of an existing example whose text or
/// (normalized) source differs from the saved example yields an update of that example, by its
/// number, to the drafted text and the drafted source (an empty source standing for none). A
/// change of the source alone is thus saved as well as a change of the text.
pub proof fn law_edited_example_is_updated(
    id: Seq<char>,
    original_members: Seq<String>,
    lemma_drafts: Seq<String>,
    original_definition: Seq<char>,
    draft_definition: Seq<char>,
    examples: Seq<Example>,
    drafts: Seq<ExampleDraft>,
    relation_deletes: Seq<RelationKey>,
    relation_adds: Seq<PendingRelation>,
    k: int,
)
    requires
        0 <= k < drafts.len(),
        !drafts[k].deleted,
        drafts[k].original_number is Some,
        1 <= drafts[k].original_number->0 <= examples.len(),
        drafts[k].text@ != examples[drafts[k].original_number->0 - 1].text@
            || drafts[k].source@ != match examples[drafts[k].original_number->0 - 1].source {
                Some(t) => t@,
                None => Seq::<char>::empty(),
            },
    ensures
        changes_for(id, original_members, lemma_drafts, original_definition, draft_definition, examples, drafts,
            relation_deletes, relation_adds).contains(ActionView::UpdateExample {
            synset: id,
            number: drafts[k].original_number->0 as nat,
            example: drafts[k].text@,
            source: if drafts[k].source@.len() == 0 { None } else { Some(drafts[k].source@) },
        }),
{
    let d = drafts[k];
    let e = examples[d.original_number->0 - 1];
    if d.text@ == e.text@ {
        match e.source {
            Some(t) => {
                if d.source@.len() == 0 {
                } else {
                    assert(normalized_source(d.source@) != opt_text(e.source));
                }
            },
            None => {
                assert(d.source@.len() > 0) by {
                    if d.source@.len() == 0 {
                        assert(d.source@ =~= Seq::<char>::empty());
                    }
                }
            },
        }
    }
    lemma_update_listed(id, examples, drafts, k);
    let a = ActionView::UpdateExample {
        synset: id,
        number: d.original_number->0 as nat,
        example: d.text@,
        source: normalized_source(d.source@),
    };
    let pre = members_change(id, original_members, lemma_drafts) + definition_change(id, original_definition, draft_definition);
    let mid = example_updates(id, examples, drafts);
    let i = choose|i: int| 0 <= i < mid.len() && mid[i] == a;
    let all = changes_for(id, original_members, lemma_drafts, original_definition, draft_definition, examples, drafts,
        relation_deletes, relation_adds);
    assert(all[pre.len() + i] == a);
}

} // verus!
