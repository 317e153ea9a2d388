use ewe::ids::SynsetId;
use ewe::search::{
    rank_suggestions, extend_synset_ids, lemma_synset_ids, ssid_lookup_limit, suggestion_keydown, synset_search_limit, SearchResultKind, SuggestionKey,
    SuggestionStep,
};

fn strings(xs: &[&str]) -> Vec<String> {
    xs.iter().map(|x| x.to_string()).collect()
}

fn ids(xs: &[&str]) -> Vec<SynsetId> {
    xs.iter().map(|x| SynsetId::new(x)).collect()
}

fn texts(v: &[SynsetId]) -> Vec<String> {
    v.iter().map(|i| i.to_string()).collect()
}

#[test]
fn autocomplete_ranks_by_lowercase_then_reverse_case() {
    let lemmas = strings(&["dog", "Dog", "cat", "Cat", "ant"]);
    let r = rank_suggestions(lemmas, Vec::new(), Vec::new(), "oewn", None);
    let shown: Vec<&str> = r.iter().map(|x| x.display.as_str()).collect();
    assert_eq!(shown, vec!["ant", "cat", "Cat", "dog", "Dog"]);
    assert!(r.iter().all(|x| x.kind == SearchResultKind::Lemma && x.value == x.display));
}

#[test]
fn autocomplete_formats_synset_and_ili_suggestions() {
    let r = rank_suggestions(
        Vec::new(),
        strings(&["00001740-n"]),
        vec![("i35545".to_string(), "00001740-n".to_string())],
        "oewn",
        Some(100),
    );
    assert_eq!(r.len(), 2);
    assert_eq!(r[0].display, "i35545 (00001740-n)");
    assert_eq!(r[0].kind, SearchResultKind::Synset);
    assert_eq!(r[0].value, "00001740-n");
    assert_eq!(r[1].display, "oewn-00001740-n");
    assert_eq!(r[1].value, "00001740-n");
}

#[test]
fn autocomplete_keeps_the_first_max_results_before_ranking() {
    let r = rank_suggestions(strings(&["zebra", "yak"]), strings(&["00000001-n"]), Vec::new(), "oewn", Some(2));
    let shown: Vec<&str> = r.iter().map(|x| x.display.as_str()).collect();
    assert_eq!(shown, vec!["yak", "zebra"]);
    assert!(rank_suggestions(strings(&["a"]), Vec::new(), Vec::new(), "oewn", Some(0)).is_empty());
}

#[test]
fn autocomplete_keeps_input_order_between_equal_displays() {
    let r = rank_suggestions(strings(&["oewn-1"]), strings(&["1"]), Vec::new(), "oewn", Some(10));
    assert_eq!(r.len(), 2);
    assert_eq!(r[0].kind, SearchResultKind::Lemma);
    assert_eq!(r[1].kind, SearchResultKind::Synset);
}

#[test]
fn lemma_synset_ids_dedups_and_stops_at_the_limit() {
    let senses = ids(&["a", "b", "a", "c", "d"]);
    assert_eq!(texts(&lemma_synset_ids(&senses, 3)), strings(&["a", "b", "c"]));
    assert_eq!(texts(&lemma_synset_ids(&senses, 10)), strings(&["a", "b", "c", "d"]));
    assert_eq!(texts(&lemma_synset_ids(&senses, 0)), strings(&["a"]));
    assert!(lemma_synset_ids(&Vec::new(), 5).is_empty());
}

#[test]
fn synset_ids_are_topped_up_by_identifier_prefix() {
    assert_eq!(ssid_lookup_limit(2, 20), Some(18));
    assert_eq!(ssid_lookup_limit(20, 20), None);
    assert_eq!(ssid_lookup_limit(21, 20), None);
    let found = ids(&["00001740-n"]);
    let more = strings(&["00001740-n", "00001741-n"]);
    assert_eq!(texts(&extend_synset_ids(found, &more)), strings(&["00001740-n", "00001741-n"]));
}

#[test]
fn suggestion_keys_move_within_the_list() {
    assert_eq!(suggestion_keydown(0, 3, SuggestionKey::Down), SuggestionStep::Select(1));
    assert_eq!(suggestion_keydown(2, 3, SuggestionKey::Down), SuggestionStep::Select(2));
    assert_eq!(suggestion_keydown(usize::MAX, 3, SuggestionKey::Down), SuggestionStep::Select(2));
    assert_eq!(suggestion_keydown(0, 3, SuggestionKey::Up), SuggestionStep::Select(0));
    assert_eq!(suggestion_keydown(2, 3, SuggestionKey::Up), SuggestionStep::Select(1));
    assert_eq!(suggestion_keydown(1, 3, SuggestionKey::Enter), SuggestionStep::Open(1));
    assert_eq!(suggestion_keydown(7, 3, SuggestionKey::Enter), SuggestionStep::Open(2));
    assert_eq!(suggestion_keydown(1, 3, SuggestionKey::Other), SuggestionStep::Ignore);
    assert_eq!(suggestion_keydown(0, 0, SuggestionKey::Enter), SuggestionStep::Ignore);
}

#[test]
fn search_limits_default_when_not_given() {
    assert_eq!(synset_search_limit(None), 20);
    assert_eq!(synset_search_limit(Some(5)), 5);
    let many: Vec<String> = (0..150).map(|i| format!("w{:03}", i)).collect();
    assert_eq!(rank_suggestions(many, Vec::new(), Vec::new(), "oewn", None).len(), 100);
}
