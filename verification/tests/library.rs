use ewe::assemble::{assemble_lexicon, classify_source_file, SourceFile};
use ewe::cli::{
    default_license_file, default_sense_orders, generate_settings_toml, group_by_key, input_optional, input_with_default,
    locate_wordnet_dir, looks_like_wordnet_dir, prompt_optional, prompt_with_default, toml_escape, wordnet_root,
    RdfSyntax,
};
use ewe::editor::{
    build_actions, delete_example_draft, move_lemma_draft, map_se_rels, map_ss_rels, normalize_source, pos_options_for_lexfile, subcats, Action,
    ExampleDraft, PendingRelation, RelationKey, SynsetRef,
};
use ewe::ids::{ILIID, PartOfSpeech, PosKey, SenseId, SynsetId};
use ewe::lexicon::Lexicon;
use ewe::links::{add_reverse_links, synset_by_id_mut};
use ewe::members::{entry_key, try_synset_with_members};
use ewe::model::{Entries, Entry, Example, Member, MemberSense, Sense, SenseRelation, Synset, Synsets};
use ewe::relations::{find_relation_type, sense_relation_types, synset_relation_types};
use ewe::settings::{
    default_downloads_dir, is_stale, is_unconfigured_corpus, is_unconfigured_lexicon, DownloadsConfig, EweSettings,
    LexiconUnavailable, Staleness, DownloadFile, DownloadRelease,
};
use ewe::subcat::{gerund_form, replace_subcat, third_person_form};
use ewe::theme::{escape_js_string, theme_override_pairs, ThemeOverrides};
use ewe::web::{
    content_type_for, download_content_type, format_count, format_timestamp, gen_sitemap_chunk_xml,
    gen_sitemap_index_xml, heading_text, join_url, metadata, negotiate_ranked, robots_body, static_content_type,
    strip_id_prefix, ContentType, LexiconMetadata,
};

use ewe::web::{sitemap_chunk_count, sitemap_chunk_ids};
use ewe::text::parse_usize;
use ewe::lexicon::resolve_lemma_synsets;
use ewe::web::{accept_media_ranges, group_by_part_of_speech, is_export_link, split_text};
use ewe::stats::synset_stats;
use ewe::stats::entry_stats;

fn synset(members: &[&str], definition: &str, hypernyms: &[&str], ili: Option<&str>) -> Synset {
    Synset {
        id: None,
        lexname: None,
        definition: vec![definition.to_string()],
        example: Vec::new(),
        ili: ili.map(ILIID::new),
        wikidata: None,
        source: None,
        members: members.iter().map(|m| m.to_string()).collect(),
        part_of_speech: PartOfSpeech::n,
        also: Vec::new(),
        attribute: Vec::new(),
        causes: Vec::new(),
        domain_region: Vec::new(),
        domain_topic: Vec::new(),
        exemplifies: Vec::new(),
        entails: Vec::new(),
        hypernym: hypernyms.iter().map(|h| SynsetId::new(h)).collect(),
        instance_hypernym: Vec::new(),
        mero_member: Vec::new(),
        mero_part: Vec::new(),
        mero_substance: Vec::new(),
        similar: Vec::new(),
        hyponym: Vec::new(),
        is_caused_by: Vec::new(),
        has_domain_region: Vec::new(),
        has_domain_topic: Vec::new(),
        is_exemplified_by: Vec::new(),
        is_entailed_by: Vec::new(),
        instance_hyponym: Vec::new(),
        holo_member: Vec::new(),
        holo_part: Vec::new(),
        holo_substance: Vec::new(),
        antonym: Vec::new(),
        participle: Vec::new(),
        is_participle_of: Vec::new(),
        pertainym: Vec::new(),
        is_pertainym_of: Vec::new(),
        derivation: Vec::new(),
        exemplifies_sense: Vec::new(),
        is_exemplified_by_sense: Vec::new(),
        agent: Vec::new(),
        is_agent_of: Vec::new(),
        material: Vec::new(),
        is_material_of: Vec::new(),
        event: Vec::new(),
        is_event_of: Vec::new(),
        instrument: Vec::new(),
        is_instrument_of: Vec::new(),
        location: Vec::new(),
        is_location_of: Vec::new(),
        by_means_of: Vec::new(),
        is_by_means_of: Vec::new(),
        undergoer: Vec::new(),
        is_undergoer_of: Vec::new(),
        property: Vec::new(),
        is_property_of: Vec::new(),
        result: Vec::new(),
        is_result_of: Vec::new(),
        state: Vec::new(),
        is_state_of: Vec::new(),
        uses: Vec::new(),
        is_used_by: Vec::new(),
        destination: Vec::new(),
        is_destination_of: Vec::new(),
        body_part: Vec::new(),
        is_body_part_of: Vec::new(),
        vehicle: Vec::new(),
        is_vehicle_of: Vec::new(),
    }
}

fn sense(id: &str, synset: &str, antonyms: &[&str], subcat: &[&str]) -> Sense {
    Sense {
        id: SenseId::new(id),
        synset: SynsetId::new(synset),
        adjposition: None,
        subcat: subcat.iter().map(|s| s.to_string()).collect(),
        antonym: antonyms.iter().map(|a| SenseId::new(a)).collect(),
        also: Vec::new(),
        participle: Vec::new(),
        pertainym: Vec::new(),
        derivation: Vec::new(),
        domain_topic: Vec::new(),
        has_domain_topic: Vec::new(),
        domain_region: Vec::new(),
        has_domain_region: Vec::new(),
        exemplifies: Vec::new(),
        is_exemplified_by: Vec::new(),
        similar: Vec::new(),
        other: Vec::new(),
        agent: Vec::new(),
        material: Vec::new(),
        event: Vec::new(),
        instrument: Vec::new(),
        location: Vec::new(),
        by_means_of: Vec::new(),
        undergoer: Vec::new(),
        property: Vec::new(),
        result: Vec::new(),
        state: Vec::new(),
        uses: Vec::new(),
        destination: Vec::new(),
        body_part: Vec::new(),
        vehicle: Vec::new(),
        sent: Vec::new(),
    }
}

fn entry(senses: Vec<Sense>) -> Entry {
    Entry { sense: senses, form: Vec::new(), pronunciation: Vec::new(), poskey: None }
}

/// A small wordnet: "cat" and "feline" in a noun synset under "animal"; "hot" and "cold" as
/// antonyms in two adjective synsets.
fn sample() -> (Vec<(String, Entries)>, Vec<(String, Synsets)>) {
    let entries_a = Entries(vec![(
        "animal".to_string(),
        vec![(PosKey::new("n"), entry(vec![sense("animal%1:03:00::", "00015388-n", &[], &[])]))],
    )]);
    let entries_c = Entries(vec![
        ("cat".to_string(), vec![(PosKey::new("n"), entry(vec![sense("cat%1:05:00::", "02121620-n", &[], &[])]))]),
        ("cold".to_string(), vec![(PosKey::new("a"), entry(vec![sense("cold%3:00:01::", "01251128-a", &[], &[])]))]),
    ]);
    let entries_f = Entries(vec![(
        "feline".to_string(),
        vec![(PosKey::new("n"), entry(vec![sense("feline%1:05:00::", "02121620-n", &[], &[])]))],
    )]);
    let entries_h = Entries(vec![(
        "hot".to_string(),
        vec![(PosKey::new("a"), entry(vec![sense("hot%3:00:01::", "01247240-a", &["cold%3:00:01::"], &[])]))],
    )]);
    let nouns = Synsets(vec![
        (SynsetId::new("00015388-n"), synset(&["animal"], "a living organism", &[], Some("i35563"))),
        (SynsetId::new("02121620-n"), synset(&["cat", "feline"], "feline mammal", &["00015388-n"], Some("i46593"))),
    ]);
    let adjs = Synsets(vec![
        (SynsetId::new("01247240-a"), synset(&["hot"], "used of physical heat", &[], None)),
        (SynsetId::new("01251128-a"), synset(&["cold"], "having a low temperature", &[], None)),
    ]);
    (
        vec![("a".to_string(), entries_a), ("c".to_string(), entries_c), ("f".to_string(), entries_f), ("h".to_string(), entries_h)],
        vec![("noun.animal".to_string(), nouns), ("adj.all".to_string(), adjs)],
    )
}

fn sample_lexicon() -> Lexicon {
    let (entries, lexfiles) = sample();
    assemble_lexicon(entries, lexfiles).expect("every member resolves")
}

#[test]
fn hypernym_gives_hyponym_back() {
    let (entries, _) = sample();
    let mut a = synset(&["animal"], "a living organism", &[], None);
    a.id = Some(SynsetId::new("00015388-n"));
    let mut c = synset(&["cat"], "feline mammal", &["00015388-n"], None);
    c.id = Some(SynsetId::new("02121620-n"));
    let mut store = vec![(
        "noun.animal".to_string(),
        Synsets(vec![(SynsetId::new("00015388-n"), a), (SynsetId::new("02121620-n"), c)]),
    )];
    let map = vec![
        (SynsetId::new("00015388-n"), "noun.animal".to_string()),
        (SynsetId::new("02121620-n"), "noun.animal".to_string()),
    ];
    add_reverse_links(&mut store, &entries, &map);
    let animal = &store[0].1 .0[0].1;
    assert_eq!(animal.hyponym, vec![SynsetId::new("02121620-n")]);
    let cat = &store[0].1 .0[1].1;
    assert_eq!(cat.hypernym, vec![SynsetId::new("00015388-n")]);
    assert!(cat.hyponym.is_empty());
}

#[test]
fn antonym_is_recorded_on_both_synsets() {
    let (entries, lexfiles) = sample();
    let mut store = Vec::new();
    let mut map = Vec::new();
    for (name, Synsets(list)) in lexfiles {
        let mut out = Vec::new();
        for (id, mut s) in list {
            s.id = Some(id.clone());
            s.lexname = Some(name.clone());
            map.push((id.clone(), name.clone()));
            out.push((id, s));
        }
        store.push((name, Synsets(out)));
    }
    add_reverse_links(&mut store, &entries, &map);
    let hot = &store[1].1 .0[0].1;
    let cold = &store[1].1 .0[1].1;
    assert_eq!(
        hot.antonym,
        vec![SenseRelation {
            target_synset: SynsetId::new("01251128-a"),
            source_lemma: "hot".to_string(),
            target_lemma: "cold".to_string()
        }]
    );
    assert_eq!(
        cold.antonym,
        vec![SenseRelation {
            target_synset: SynsetId::new("01247240-a"),
            source_lemma: "cold".to_string(),
            target_lemma: "hot".to_string()
        }]
    );
}

#[test]
fn assembled_lexicon_indexes_lemmas_ilis_and_ids() {
    let lex = sample_lexicon();
    assert_eq!(lex.entry_by_lemma("cat"), vec![SynsetId::new("02121620-n")]);
    assert_eq!(lex.entry_by_lemma("feline"), vec![SynsetId::new("02121620-n")]);
    assert!(lex.entry_by_lemma("dog").is_empty());
    let cat = lex.synset_by_id(&SynsetId::new("02121620-n")).expect("cat synset");
    assert_eq!(cat.lexname, "noun.animal");
    assert_eq!(cat.members.len(), 2);
    assert_eq!(cat.members[0].lemma, "cat");
    assert_eq!(cat.members[0].sense.id, SenseId::new("cat%1:05:00::"));
    assert_eq!(cat.members[1].lemma, "feline");
    assert_eq!(cat.members[0].poskey, Some(PosKey::new("n")));
    assert_eq!(cat.hypernym, vec![SynsetId::new("00015388-n")]);
    let animal = lex.synset_by_id(&SynsetId::new("00015388-n")).expect("animal synset");
    assert_eq!(animal.hyponym, vec![SynsetId::new("02121620-n")]);
    let (id, by_ili) = lex.synset_by_ili("i46593").expect("ili");
    assert_eq!(*id, SynsetId::new("02121620-n"));
    assert_eq!(by_ili.id, SynsetId::new("02121620-n"));
    assert!(lex.synset_by_ili("i00000").is_none());
    assert!(lex.synset_by_id(&SynsetId::new("99999999-n")).is_none());
}

#[test]
fn prefix_lookups_filter_the_keys() {
    let lex = sample_lexicon();
    let mut lemmas = lex.lemma_by_prefix("C");
    lemmas.sort();
    assert_eq!(lemmas, vec!["cat".to_string(), "cold".to_string()]);
    let mut ids = lex.ssid_by_prefix("0212");
    ids.sort();
    assert_eq!(ids, vec!["02121620-n".to_string()]);
    let mut ilis = lex.ili_by_prefix("i4");
    ilis.sort();
    assert_eq!(ilis, vec!["i46593".to_string()]);
    assert_eq!(lex.synset_ids().len(), 4);
}

#[test]
fn missing_entries_file_is_refused() {
    let (mut entries, lexfiles) = sample();
    entries.retain(|(k, _)| k != "f");
    assert!(assemble_lexicon(entries, lexfiles).is_none());
}

#[test]
fn synset_with_members_takes_only_senses_of_the_synset() {
    let (entries, _) = sample();
    let mut s = synset(&["cat"], "feline mammal", &[], None);
    s.id = Some(SynsetId::new("00015388-n"));
    s.lexname = Some("noun.animal".to_string());
    let m = try_synset_with_members(s, &entries).expect("resolvable");
    assert!(m.members.is_empty());
    let mut s = synset(&["cat"], "feline mammal", &[], None);
    s.lexname = Some("noun.animal".to_string());
    assert!(try_synset_with_members(s, &entries).is_none());
}

#[test]
fn entry_keys_use_the_first_lowercase_letter() {
    assert_eq!(entry_key("Cat"), "c");
    assert_eq!(entry_key("1st"), "0");
    assert_eq!(entry_key("Ärger"), "0");
    assert_eq!(entry_key("zebra"), "z");
}

#[test]
fn homograph_numbers_come_from_the_key() {
    assert_eq!(PosKey::new("n").entry_no(), None);
    assert_eq!(PosKey::new("n-2").entry_no(), Some(2));
    assert_eq!(PosKey::new("v-x").entry_no(), None);
    assert_eq!(PosKey::new("a-+7").entry_no(), Some(7));
}

#[test]
fn parts_of_speech_round_trip() {
    for p in [PartOfSpeech::n, PartOfSpeech::v, PartOfSpeech::a, PartOfSpeech::r, PartOfSpeech::s] {
        assert_eq!(PartOfSpeech::from_str(p.str()), Ok(p));
    }
    assert_eq!(PartOfSpeech::from_str("x"), Err("Unknown part of speech: x".to_string()));
    assert_eq!(PartOfSpeech::s.as_long_string(), "adjective_satellite");
}

#[test]
fn relation_types_resolve_and_swap() {
    let hyponym = find_relation_type("syn:hyponym").expect("hyponym");
    assert!(hyponym.swapped);
    assert_eq!(hyponym.store_as, "hypernym");
    let antonym = find_relation_type("sense:antonym").expect("antonym");
    assert!(antonym.is_sense && !antonym.swapped);
    assert!(find_relation_type("syn:antonym").is_none());
    assert!(find_relation_type("hypernym").is_none());
    assert_eq!(synset_relation_types().len(), 30);
    assert_eq!(sense_relation_types().len(), 20);
}

#[test]
fn verbs_are_inflected_for_frames() {
    assert_eq!(third_person_form("try"), "tries");
    assert_eq!(third_person_form("play"), "plays");
    assert_eq!(third_person_form("watch"), "watches");
    assert_eq!(third_person_form("go"), "goes");
    assert_eq!(third_person_form("fix"), "fixes");
    assert_eq!(third_person_form("pass"), "passes");
    assert_eq!(third_person_form("run"), "runs");
    assert_eq!(gerund_form("make"), "making");
    assert_eq!(gerund_form("run"), "runing");
    assert_eq!(gerund_form("die"), "diing");
}

#[test]
fn frames_are_filled_with_the_lemmas() {
    let members = vec!["run".to_string(), "take off".to_string()];
    assert_eq!(replace_subcat("vtai", &members), "Somebody runs/takes off something");
    assert_eq!(replace_subcat("nonreferential", &vec!["rain".to_string()]), "It is raining");
    assert_eq!(replace_subcat("Somebody ---- it", &vec!["go".to_string()]), "Somebody go it");
}

#[test]
fn js_strings_are_escaped() {
    assert_eq!(escape_js_string("a\\b\"c\nd\re"), "a\\\\b\\\"c\\nd\\re");
    let theme = ThemeOverrides { accent: Some("#fff".to_string()), ..Default::default() };
    let pairs = theme_override_pairs(&theme);
    assert_eq!(pairs.len(), 19);
    assert_eq!(pairs[1], ("--color-accent", Some("#fff")));
    assert_eq!(pairs[18], ("--font-mono", None));
}

#[test]
fn validation_names_the_first_bad_field() {
    let theme = ThemeOverrides {
        text: Some("red".to_string()),
        font_mono: Some("x;y".to_string()),
        ..Default::default()
    };
    assert_eq!(
        theme.validate(),
        Err("theme.text = \"red\" is not a valid CSS hex color (expected e.g. \"#002868\")".to_string())
    );
    let theme = ThemeOverrides { font_mono: Some("x;y".to_string()), ..Default::default() };
    assert_eq!(
        theme.validate(),
        Err("theme.font_mono = \"x;y\" contains a character not allowed in a theme font value".to_string())
    );
}

#[test]
fn urls_and_prefixes() {
    assert_eq!(join_url("https://en-word.net/", "/sitemap.xml"), "https://en-word.net/sitemap.xml");
    assert_eq!(join_url("https://en-word.net", "sitemap.xml"), "https://en-word.net/sitemap.xml");
    assert_eq!(join_url("https://x//", "//a/b"), "https://x/a/b");
    assert_eq!(strip_id_prefix("OEWN-00001740-n", "oewn"), "00001740-n");
    assert_eq!(strip_id_prefix("00001740-n", "oewn"), "00001740-n");
    assert_eq!(strip_id_prefix("cat", "oewn"), "cat");
}

#[test]
fn sitemaps_are_generated() {
    let index = gen_sitemap_index_xml("https://en-word.net/", 2);
    assert_eq!(
        String::from_utf8(index).unwrap(),
        "<?xml version=\"1.0\" encoding=\"UTF-8\"?><sitemapindex xmlns=\"http://www.sitemaps.org/schemas/sitemap/0.9\"><sitemap><loc>https://en-word.net/sitemap/0</loc></sitemap><sitemap><loc>https://en-word.net/sitemap/1</loc></sitemap></sitemapindex>"
    );
    let chunk = gen_sitemap_chunk_xml("https://x.org/?a=1&b=2", &[SynsetId::new("00001740-n")]);
    assert_eq!(
        String::from_utf8(chunk).unwrap(),
        "<?xml version=\"1.0\" encoding=\"UTF-8\"?><urlset xmlns=\"http://www.sitemaps.org/schemas/sitemap/0.9\"><url><loc>https://x.org/?a=1&amp;b=2/view/synset/00001740-n</loc></url></urlset>"
    );
    assert!(robots_body(None).ends_with("Disallow: /api/\n"));
    assert!(robots_body(Some("https://en-word.net")).ends_with("\nSitemap: https://en-word.net/sitemap.xml\n"));
}

#[test]
fn content_types_follow_extensions() {
    assert_eq!(download_content_type("english-wordnet-2025.xml.GZ"), "application/gzip");
    assert_eq!(download_content_type("oewn.zip"), "application/zip");
    assert_eq!(download_content_type("README"), "application/octet-stream");
    assert_eq!(static_content_type("assets/logo.SVG"), "image/svg+xml");
    assert_eq!(static_content_type("a.jpeg"), "image/jpeg");
    assert_eq!(static_content_type("theme.css"), "text/css");
    assert_eq!(negotiate_ranked(&["application/xhtml+xml", "text/turtle", "text/html"]), ContentType::Turtle);
    assert_eq!(negotiate_ranked(&["image/png"]), ContentType::HTML);
    assert_eq!(content_type_for("*/*"), Some(ContentType::HTML));
}

#[test]
fn display_formats() {
    assert_eq!(format_count(0), "0");
    assert_eq!(format_count(999), "999");
    assert_eq!(format_count(1000), "1,000");
    assert_eq!(format_count(142384), "142,384");
    assert_eq!(format_count(1234567), "1,234,567");
    assert_eq!(format_timestamp(0), "1970-01-01 00:00:00 UTC");
    assert_eq!(format_timestamp(1_700_000_000_000), "2023-11-14 22:13:20 UTC");
    assert_eq!(heading_text(None, "00001740-n"), "Occurrences of 00001740-n");
    let cat = sample_lexicon().synset_by_id(&SynsetId::new("02121620-n"));
    assert_eq!(heading_text(cat, "02121620-n"), "Occurrences of 'cat', 'feline' (feline mammal)");
}

#[test]
fn export_metadata_comes_from_settings() {
    let settings = EweSettings::default();
    let m = metadata(&settings);
    assert_eq!(m.id_prefix, "oewn");
    assert_eq!(m.label, "EWE Wordnet Editor");
    assert_eq!(m.language, "en");
    assert_eq!(m.version, "2024");
    assert_eq!(m.email, None);
}

#[test]
fn settings_defaults_and_staleness() {
    let s = EweSettings::default();
    assert_eq!(s.database, "wordnet.db");
    assert_eq!(s.lexicon_cache_mb, 128);
    assert!(is_unconfigured_lexicon(&s, false));
    assert!(!is_unconfigured_lexicon(&s, true));
    assert!(is_unconfigured_corpus(&s, false));
    assert_eq!(DownloadsConfig::default().downloads_dir, "downloads");
    assert_eq!(default_downloads_dir(), "downloads");
    assert_eq!(is_stale(None, true), Staleness::Stale);
    assert_eq!(is_stale(Some(5), true), Staleness::Fresh);
    assert_eq!(is_stale(Some(5), false), Staleness::NewerThan(5));
    assert!(Staleness::NewerThan(5).source_is_newer(6));
    assert!(!Staleness::NewerThan(5).source_is_newer(5));
    assert_eq!(LexiconUnavailable.to_string(), "Lexicon not available");
}

#[test]
fn editor_changes_follow_the_drafts() {
    let id = SynsetId::new("02121620-n");
    let examples = vec![
        Example { text: "one".to_string(), source: None },
        Example { text: "two".to_string(), source: Some("src".to_string()) },
        Example { text: "three".to_string(), source: None },
    ];
    let mut drafts = ExampleDraft::from_examples(&examples);
    assert_eq!(drafts[1].source, "src");
    assert_eq!(drafts[2].original_number, Some(3));
    drafts[0].text = "uno".to_string();
    drafts[1].deleted = true;
    drafts[2].deleted = true;
    drafts.push(ExampleDraft { original_number: None, text: "  ".to_string(), source: String::new(), deleted: false });
    drafts.push(ExampleDraft { original_number: None, text: "four".to_string(), source: "s".to_string(), deleted: false });
    let hyponym = find_relation_type("syn:hyponym").unwrap();
    let adds = vec![PendingRelation {
        info: hyponym,
        target: SynsetId::new("02122298-n"),
        target_display: "kitty".to_string(),
        source_lemma: None,
        target_lemma: None,
    }];
    let deletes = vec![RelationKey {
        key: "hypernym",
        target: SynsetId::new("00015388-n"),
        source_lemma: None,
        target_lemma: None,
    }];
    let actions = build_actions(
        &id,
        &["cat".to_string()],
        &[" cat ".to_string(), "".to_string(), "moggy".to_string()],
        "feline mammal",
        "feline mammal",
        &examples,
        &drafts,
        &deletes,
        &adds,
    );
    assert_eq!(actions.len(), 7);
    match &actions[0] {
        Action::ChangeMembers { members, .. } => assert_eq!(members, &vec!["cat".to_string(), "moggy".to_string()]),
        other => panic!("unexpected {:?}", other),
    }
    match &actions[1] {
        Action::UpdateExample { number, example, source, .. } => {
            assert_eq!(*number, 1);
            assert_eq!(example, "uno");
            assert_eq!(*source, None);
        }
        other => panic!("unexpected {:?}", other),
    }
    assert!(matches!(actions[2], Action::DeleteExample { number: 3, .. }));
    assert!(matches!(actions[3], Action::DeleteExample { number: 2, .. }));
    match &actions[4] {
        Action::AddExample { example, source, .. } => {
            assert_eq!(example, "four");
            assert_eq!(source.as_deref(), Some("s"));
        }
        other => panic!("unexpected {:?}", other),
    }
    assert!(matches!(&actions[5], Action::DeleteRelation { target: SynsetRef::Id(t), .. } if *t == SynsetId::new("00015388-n")));
    match &actions[6] {
        Action::AddRelation { source: SynsetRef::Id(s), relation, target: SynsetRef::Id(t), .. } => {
            assert_eq!(*s, SynsetId::new("02122298-n"));
            assert_eq!(relation, "hypernym");
            assert_eq!(*t, id);
        }
        other => panic!("unexpected {:?}", other),
    }
    assert_eq!(normalize_source(""), None);
}

#[test]
fn editor_views_of_a_synset() {
    assert_eq!(pos_options_for_lexfile("noun.animal"), vec![("n", "noun")]);
    assert_eq!(pos_options_for_lexfile("adj.all"), vec![("a", "adjective"), ("s", "adjective satellite")]);
    assert!(pos_options_for_lexfile("frames").is_empty());
    let rels = map_ss_rels(vec![SynsetId::new("1")]);
    assert_eq!(rels, vec![(SynsetId::new("1"), None, None)]);
    let rels = map_se_rels(vec![SenseRelation {
        target_synset: SynsetId::new("2"),
        source_lemma: "a".to_string(),
        target_lemma: "b".to_string(),
    }]);
    assert_eq!(rels, vec![(SynsetId::new("2"), Some("a".to_string()), Some("b".to_string()))]);
    let lex = sample_lexicon();
    let mut cat = lex.synset_by_id(&SynsetId::new("02121620-n")).unwrap();
    cat.members[0].sense.subcat = vec!["vtai".to_string(), "vii".to_string()];
    cat.members[1].sense.subcat = vec!["vtai".to_string()];
    let groups = subcats(&cat);
    assert_eq!(
        groups,
        vec![
            ("vtai".to_string(), vec!["cat".to_string(), "feline".to_string()]),
            ("vii".to_string(), vec!["cat".to_string()]),
        ]
    );
    let _ = Member {
        lemma: String::new(),
        sense: MemberSense { id: SenseId::new("x"), subcat: Vec::new() },
        form: Vec::new(),
        pronunciation: Vec::new(),
        poskey: None,
        entry_no: None,
    };
}

#[test]
fn command_line_helpers() {
    assert_eq!(toml_escape("a\"b\\c"), "a\\\"b\\\\c");
    let m = LexiconMetadata {
        id_prefix: "wn".to_string(),
        label: "My \"Wordnet\"".to_string(),
        language: "en".to_string(),
        email: Some("me@example.org".to_string()),
        license: "l".to_string(),
        version: "1".to_string(),
        url: None,
    };
    assert_eq!(
        generate_settings_toml(&m),
        "database = \"wordnet.db\"\nwordnet_source = \"src/yaml/\"\nid_prefix = \"wn\"\nproject_name = \"My \\\"Wordnet\\\"\"\ncontact_email = \"me@example.org\"\n"
    );
    assert_eq!(prompt_with_default("Id prefix", "wn"), "Id prefix [wn]: ");
    assert_eq!(input_with_default(String::new(), "wn"), "wn");
    assert_eq!(input_with_default("oewn".to_string(), "wn"), "oewn");
    assert_eq!(prompt_optional("Contact email"), "Contact email (optional): ");
    assert_eq!(input_optional(String::new()), None);
    assert_eq!(wordnet_root(&None), ".");
    assert_eq!(default_license_file(&Some("/wn".to_string()), true), Some("/wn/WNDB_License.txt".to_string()));
    assert_eq!(default_license_file(&None, false), None);
    assert!(looks_like_wordnet_dir(false, true));
    assert_eq!(locate_wordnet_dir(&Some("/wn".to_string()), false, true, false, false), Ok("/wn/src/yaml/".to_string()));
    assert_eq!(
        locate_wordnet_dir(&Some("/x".to_string()), false, false, true, true),
        Err("Could not find WordNet at /x".to_string())
    );
    assert_eq!(locate_wordnet_dir(&None, false, false, false, false), Err("Please specify WordNet home".to_string()));
    let groups = group_by_key(vec![("b".to_string(), 1), ("a".to_string(), 2), ("b".to_string(), 3)]);
    assert_eq!(groups, vec![("b".to_string(), vec![1, 3]), ("a".to_string(), vec![2])]);
    assert_eq!(RdfSyntax::RdfXml.to_string(), "rdf-xml");
}

#[test]
fn source_files_are_classified() {
    assert_eq!(classify_source_file("entries-a.yaml"), SourceFile::Entries("a".to_string()));
    assert_eq!(classify_source_file("noun.animal.yaml"), SourceFile::Lexfile("noun.animal".to_string()));
    assert_eq!(classify_source_file("frames.yaml"), SourceFile::Other);
    assert_eq!(classify_source_file("README.md"), SourceFile::Other);
}

#[test]
fn sitemap_chunks_cover_the_synsets() {
    assert_eq!(sitemap_chunk_count(0), 1);
    assert_eq!(sitemap_chunk_count(1), 1);
    assert_eq!(sitemap_chunk_count(45000), 1);
    assert_eq!(sitemap_chunk_count(45001), 2);
    assert_eq!(sitemap_chunk_count(120000), 3);
    let ids: Vec<SynsetId> = (0..90005).map(|i| SynsetId::new(&format!("{:08}-n", i))).collect();
    let first = sitemap_chunk_ids(&ids, 0);
    assert_eq!(first.len(), 45000);
    assert_eq!(first[0].as_str(), "00000000-n");
    let last = sitemap_chunk_ids(&ids, 2);
    assert_eq!(last.len(), 5);
    assert_eq!(last[4].as_str(), "00090004-n");
    assert!(sitemap_chunk_ids(&ids, 3).is_empty());
    assert!(sitemap_chunk_ids(&ids, usize::MAX).is_empty());
}

#[test]
fn chunk_numbers_parse_as_unsigned_integers() {
    assert_eq!(parse_usize("0"), Some(0));
    assert_eq!(parse_usize("+12"), Some(12));
    assert_eq!(parse_usize("007"), Some(7));
    assert_eq!(parse_usize(""), None);
    assert_eq!(parse_usize("+"), None);
    assert_eq!(parse_usize("-1"), None);
    assert_eq!(parse_usize("1.xml"), None);
    assert_eq!(parse_usize("99999999999999999999999"), None);
    assert_eq!(parse_usize(&usize::MAX.to_string()), Some(usize::MAX));
}

#[test]
fn lemma_synsets_resolve_in_identifier_order() {
    let lexicon = sample_lexicon();
    let cat = resolve_lemma_synsets(&lexicon, "cat");
    assert_eq!(cat.len(), 1);
    assert_eq!(cat[0].id.as_str(), "02121620-n");
    assert!(resolve_lemma_synsets(&lexicon, "dog").is_empty());

    let entries = vec![
        (
            "a".to_string(),
            Entries(vec![(
                "animal".to_string(),
                vec![(PosKey::new("n"), entry(vec![sense("animal%1:03:00::", "00015388-n", &[], &[])]))],
            )]),
        ),
        (
            "c".to_string(),
            Entries(vec![(
                "cat".to_string(),
                vec![(
                    PosKey::new("n"),
                    entry(vec![
                        sense("cat%1:05:00::", "02121620-n", &[], &[]),
                        sense("cat%1:03:00::", "00015388-n", &[], &[]),
                    ]),
                )],
            )]),
        ),
    ];
    let nouns = Synsets(vec![
        (SynsetId::new("02121620-n"), synset(&["cat"], "feline mammal", &[], None)),
        (SynsetId::new("00015388-n"), synset(&["animal", "cat"], "a living organism", &[], None)),
    ]);
    let lexicon = assemble_lexicon(entries, vec![("noun.animal".to_string(), nouns)]).expect("members resolve");
    let ids: Vec<String> = resolve_lemma_synsets(&lexicon, "cat").iter().map(|m| m.id.as_str().to_string()).collect();
    assert_eq!(ids, vec!["00015388-n".to_string(), "02121620-n".to_string()]);
}

#[test]
fn export_links_are_recognised() {
    assert!(is_export_link("/api/docs"));
    assert!(is_export_link("/api/synset/00001740-n"));
    assert!(is_export_link("/rdf/lemma/cat"));
    assert!(is_export_link("/ttl/synset/x"));
    assert!(is_export_link("/xml/lemma/dog"));
    assert!(!is_export_link("/api/docs/more"));
    assert!(!is_export_link("/view/synset/00001740-n"));
    assert!(!is_export_link("/api/autocomplete/cat"));
    assert!(!is_export_link("/rdf/synset"));
}

fn counts(rows: &[(String, usize)]) -> Vec<(&str, usize)> {
    rows.iter().map(|(k, c)| (k.as_str(), *c)).collect()
}

#[test]
fn synset_stats_count_by_pos_roots_and_relations() {
    let animal = synset(&["animal"], "a living organism", &[], None);
    let cat = synset(&["cat"], "feline mammal", &["00015388-n"], None);
    let mut pet = synset(&["pet"], "a kept animal", &["00015388-n", "02121620-n"], None);
    pet.similar = vec![SynsetId::new("02121620-n")];
    let mut hot = synset(&["hot"], "used of physical heat", &[], None);
    hot.part_of_speech = PartOfSpeech::a;
    let mut run = synset(&["run"], "move fast", &[], None);
    run.part_of_speech = PartOfSpeech::v;
    run.instance_hypernym = vec![SynsetId::new("x")];
    let st = synset_stats(&vec![animal, cat, pet, hot, run]);
    assert_eq!(st.n_synsets, 5);
    assert_eq!(counts(&st.synsets_by_pos), vec![("a", 1), ("n", 3), ("v", 1)]);
    assert_eq!(st.n_roots, 2);
    assert_eq!(counts(&st.roots_by_pos), vec![("a", 1), ("n", 1)]);
    assert_eq!(st.n_multiple_inheritance, 1);
    assert_eq!(st.n_relations, 5);
    assert_eq!(counts(&st.relation_counts), vec![("hypernym", 3), ("instance_hypernym", 1), ("similar", 1)]);
}

#[test]
fn entry_stats_count_entries_senses_and_links() {
    let hot = entry(vec![sense("hot%3:00:01::", "01247240-a", &["cold%3:00:01::"], &[])]);
    let mut s = sense("cold%3:00:01::", "01251128-a", &["hot%3:00:01::"], &[]);
    s.similar = vec![SenseId::new("chilly%3:00:00::")];
    let cold = entry(vec![s, sense("cold%1:26:00::", "05015117-n", &[], &[])]);
    let run = entry(vec![]);
    let st = entry_stats(&vec![(PosKey::new("a"), hot), (PosKey::new("a"), cold), (PosKey::new("v"), run)]);
    assert_eq!(st.n_entries, 3);
    assert_eq!(counts(&st.entries_by_pos), vec![("a", 2), ("v", 1)]);
    assert_eq!(st.n_senses, 3);
    assert_eq!(st.n_relations, 3);
    assert_eq!(counts(&st.relation_counts), vec![("antonym", 2), ("similar", 1)]);
    let empty = entry_stats(&Vec::new());
    assert_eq!(empty.n_entries, 0);
    assert!(empty.entries_by_pos.is_empty() && empty.relation_counts.is_empty());
}

#[test]
fn sense_orders_default_only_when_the_file_exists() {
    let wn = Some("wordnet".to_string());
    let expected = std::path::Path::new("wordnet").join("src").join("sense-orders.csv");
    assert_eq!(default_sense_orders(&wn, true), Some(expected.to_string_lossy().to_string()));
    assert_eq!(default_sense_orders(&wn, false), None);
    let here = std::path::Path::new(".").join("src").join("sense-orders.csv");
    assert_eq!(default_sense_orders(&None, true), Some(here.to_string_lossy().to_string()));
}

#[test]
fn synset_by_id_mut_edits_the_synset_in_its_file() {
    let (_, mut store) = sample();
    let map = vec![
        (SynsetId::new("00015388-n"), "noun.animal".to_string()),
        (SynsetId::new("01247240-a"), "adj.all".to_string()),
        (SynsetId::new("99999999-n"), "noun.missing".to_string()),
    ];
    match synset_by_id_mut(&mut store, &SynsetId::new("01247240-a"), &map) {
        Some(s) => s.definition = vec!["very warm".to_string()],
        None => panic!("the synset is in adj.all"),
    }
    assert_eq!(store[1].1 .0[0].1.definition, vec!["very warm".to_string()]);
    assert!(synset_by_id_mut(&mut store, &SynsetId::new("02121620-n"), &map).is_none());
    assert!(synset_by_id_mut(&mut store, &SynsetId::new("99999999-n"), &map).is_none());
}

#[test]
fn accept_headers_split_into_media_ranges() {
    let r = accept_media_ranges("text/html;q=0.9, application/rdf+xml ; level=1 ; q=1.0 ,*/*;q=0.1;q=0.2,text/turtle");
    let got: Vec<(&str, Option<&str>)> = r.iter().map(|(m, q)| (m.as_str(), q.as_deref())).collect();
    assert_eq!(
        got,
        vec![
            ("text/html", Some("0.9")),
            ("application/rdf+xml", Some("1.0")),
            ("*/*", Some("0.2")),
            ("text/turtle", None),
        ]
    );
    let empty = accept_media_ranges("");
    assert_eq!(empty.len(), 1);
    assert_eq!(empty[0].0, "");
    assert_eq!(empty[0].1, None);
    let parts = split_text("a;;b", ';');
    assert_eq!(parts, vec!["a".to_string(), String::new(), "b".to_string()]);
}

#[test]
fn lemma_pages_group_synsets_by_part_of_speech() {
    let ids: Vec<SynsetId> = ["01-n", "02-v", "03-a", "04-s", "05-r", "06-n", "07-x"].iter().map(|i| SynsetId::new(i)).collect();
    let (nouns, verbs, adjectives, adverbs) = group_by_part_of_speech(&ids);
    let text = |v: &Vec<SynsetId>| v.iter().map(|i| i.as_str().to_string()).collect::<Vec<String>>();
    assert_eq!(text(&nouns), vec!["01-n", "06-n"]);
    assert_eq!(text(&verbs), vec!["02-v"]);
    assert_eq!(text(&adjectives), vec!["03-a", "04-s"]);
    assert_eq!(text(&adverbs), vec!["05-r", "07-x"]);
}

#[test]
fn dragging_a_lemma_moves_it_to_the_target_row() {
    let drafts = || vec!["a".to_string(), "b".to_string(), "c".to_string(), "d".to_string()];
    let strs = |v: Vec<String>| v.join(",");
    assert_eq!(strs(move_lemma_draft(drafts(), 0, 2)), "b,c,a,d");
    assert_eq!(strs(move_lemma_draft(drafts(), 3, 1)), "a,d,b,c");
    assert_eq!(strs(move_lemma_draft(drafts(), 1, 9)), "a,c,d,b");
    assert_eq!(strs(move_lemma_draft(drafts(), 2, 2)), "a,b,c,d");
    assert_eq!(strs(move_lemma_draft(drafts(), 7, 7)), "a,b,c,d");
}

#[test]
fn binning_an_example_row_removes_new_rows_and_marks_existing_ones() {
    let row = |n: Option<usize>, text: &str| ExampleDraft {
        original_number: n,
        text: text.to_string(),
        source: String::new(),
        deleted: false,
    };
    let drafts = vec![row(Some(1), "one"), row(None, "new"), row(Some(2), "two")];
    let after = delete_example_draft(drafts, 1);
    assert_eq!(after.len(), 2);
    assert_eq!(after[1].text, "two");
    let after = delete_example_draft(after, 1);
    assert_eq!(after.len(), 2);
    assert!(after[1].deleted);
    assert!(!after[0].deleted);
    assert_eq!(after[1].original_number, Some(2));
}

#[test]
fn only_listed_downloads_are_served() {
    let file = |name: &str| DownloadFile { filename: name.to_string(), format: None, description: None };
    let config = DownloadsConfig {
        downloads_dir: "downloads".to_string(),
        release: vec![
            DownloadRelease { version: "2024".to_string(), date: None, description: None, files: vec![file("a.zip")] },
            DownloadRelease {
                version: "2025".to_string(),
                date: None,
                description: None,
                files: vec![file("b.xml.gz"), file("c.ttl")],
            },
        ],
    };
    assert!(config.is_listed("a.zip"));
    assert!(config.is_listed("c.ttl"));
    assert!(!config.is_listed("../settings.toml"));
    assert!(!config.is_listed("b.xml"));
    assert!(!DownloadsConfig::default().is_listed("a.zip"));
}

#[test]
fn autocomplete_gathers_lemmas_ids_and_ilis_from_the_lexicon() {
    let lexicon = sample_lexicon();
    let shown = |q: &str| -> Vec<String> {
        ewe::search::autocomplete(&lexicon, q, "oewn", None).into_iter().map(|r| r.display).collect()
    };
    assert_eq!(shown("c"), vec!["cat".to_string(), "cold".to_string()]);
    assert_eq!(shown("CA"), vec!["cat".to_string()]);
    assert_eq!(shown("oewn-0212"), vec!["oewn-02121620-n".to_string()]);
    assert_eq!(shown("i4659"), vec!["i46593 (02121620-n)".to_string()]);
    assert!(shown("zzz").is_empty());
    let limited = ewe::search::autocomplete(&lexicon, "", "oewn", Some(2));
    assert_eq!(limited.len(), 2);
}

#[test]
fn synset_search_lists_candidates_by_lemma_then_identifier() {
    let lexicon = sample_lexicon();
    let found = ewe::search::search_synsets(&lexicon, "fel", None);
    assert_eq!(found.len(), 1);
    assert_eq!(found[0].id.as_str(), "02121620-n");
    assert_eq!(found[0].members, vec!["cat".to_string(), "feline".to_string()]);
    assert_eq!(found[0].definition, "feline mammal");
    let by_id = ewe::search::search_synsets(&lexicon, "0001", None);
    assert_eq!(by_id.len(), 1);
    assert_eq!(by_id[0].id.as_str(), "00015388-n");
    assert!(ewe::search::search_synsets(&lexicon, "c", Some(0)).len() <= 1);
}

#[test]
fn trim_removes_unicode_white_space() {
    let r = accept_media_ranges("\u{3000}text/html\u{a0};\u{2003}q=0.5\t");
    assert_eq!(r[0].0, "text/html");
    assert_eq!(r[0].1.as_deref(), Some("0.5"));
}

#[test]
fn lemma_prefix_lookup_lists_each_lemma_once_ignoring_case() {
    let lexicon = sample_lexicon();
    let mut all = lexicon.lemma_by_prefix("");
    all.sort();
    assert_eq!(all, vec!["animal", "cat", "cold", "feline", "hot"]);
    assert_eq!(lexicon.lemma_by_prefix("CO"), lexicon.lemma_by_prefix("co"));
    assert_eq!(lexicon.lemma_by_prefix("co"), vec!["cold".to_string()]);
}

#[test]
fn keying_and_identifying_keep_every_key_in_place() {
    let (entries, lexfiles) = sample();
    let keyed = ewe::assemble::key_entry_files(entries);
    let files: Vec<&str> = keyed.iter().map(|f| f.0.as_str()).collect();
    assert_eq!(files, vec!["a", "c", "f", "h"]);
    let lemmas: Vec<&str> = keyed[1].1 .0.iter().map(|l| l.0.as_str()).collect();
    assert_eq!(lemmas, vec!["cat", "cold"]);
    assert_eq!(keyed[1].1 .0[1].1[0].1.poskey, Some(PosKey::new("a")));
    let mut store = ewe::assemble::identify_synsets(lexfiles);
    let map = ewe::assemble::lexfile_map(&store);
    add_reverse_links(&mut store, &keyed, &map);
    let names: Vec<&str> = store.iter().map(|f| f.0.as_str()).collect();
    assert_eq!(names, vec!["noun.animal", "adj.all"]);
    let ids: Vec<&SynsetId> = store[0].1 .0.iter().map(|s| &s.0).collect();
    let expected = [SynsetId::new("00015388-n"), SynsetId::new("02121620-n")];
    assert_eq!(ids, vec![&expected[0], &expected[1]]);
    assert_eq!(store[1].1 .0[1].1.id, Some(SynsetId::new("01251128-a")));
}

#[test]
fn hyponyms_list_every_naming_synset_once_per_naming() {
    let (entries, _) = sample();
    let mut a = synset(&["animal"], "a living organism", &[], None);
    a.id = Some(SynsetId::new("00015388-n"));
    let mut c = synset(&["cat"], "feline mammal", &["00015388-n", "00015388-n"], None);
    c.id = Some(SynsetId::new("02121620-n"));
    let mut d = synset(&["dog"], "canine mammal", &["00015388-n", "09999999-n"], None);
    d.id = Some(SynsetId::new("02084071-n"));
    let mut store = vec![(
        "noun.animal".to_string(),
        Synsets(vec![
            (SynsetId::new("00015388-n"), a),
            (SynsetId::new("02084071-n"), d),
            (SynsetId::new("02121620-n"), c),
        ]),
    )];
    let map = vec![
        (SynsetId::new("00015388-n"), "noun.animal".to_string()),
        (SynsetId::new("02084071-n"), "noun.animal".to_string()),
        (SynsetId::new("02121620-n"), "noun.animal".to_string()),
    ];
    add_reverse_links(&mut store, &entries, &map);
    let animal = &store[0].1 .0[0].1;
    assert_eq!(
        animal.hyponym,
        vec![SynsetId::new("02084071-n"), SynsetId::new("02121620-n"), SynsetId::new("02121620-n")]
    );
    assert!(store[0].1 .0[1].1.hyponym.is_empty());
}

#[test]
fn download_links_percent_encode_the_identifier() {
    assert_eq!(ewe::web::encode_export_id("00001740-n"), "00001740-n");
    assert_eq!(ewe::web::encode_export_id("a b/c?d#e"), "a%20b%2Fc%3Fd%23e");
    assert_eq!(ewe::web::encode_export_id("&=+$,;:@"), "%26%3D%2B%24%2C%3B%3A%40");
    assert_eq!(ewe::web::encode_export_id("caf\u{e9}\n\u{7f}"), "caf%C3%A9%0A%7F");
    assert_eq!(ewe::web::encode_export_id("~_.-!*'()"), "~_.-!*'()");
    let links = ewe::web::download_links("lemma", "ice cream");
    assert_eq!(
        links,
        vec![
            ("JSON", "/api/lemma/ice%20cream".to_string()),
            ("RDF/XML", "/rdf/lemma/ice%20cream".to_string()),
            ("Turtle", "/ttl/lemma/ice%20cream".to_string()),
            ("XML", "/xml/lemma/ice%20cream".to_string()),
        ]
    );
}

#[test]
fn export_id_encoding_agrees_with_percent_encoding() {
    let set: &'static percent_encoding::AsciiSet = Box::leak(Box::new(percent_encoding::CONTROLS
        .add(b'/')
        .add(b'#')
        .add(b'?')
        .add(b'&')
        .add(b'=')
        .add(b'+')
        .add(b'$')
        .add(b',')
        .add(b';')
        .add(b':')
        .add(b'@')
        .add(b' ')));
    for id in ["00001740-n", "a b/c?d#e", "&=+$,;:@%", "caf\u{e9}\t\u{7f}", "\u{1F600}x", "oewn-ice_cream-n", ""] {
        assert_eq!(
            ewe::web::encode_export_id(id),
            percent_encoding::utf8_percent_encode(id, set).to_string()
        );
    }
}

#[test]
fn replace_str_agrees_with_str_replace() {
    for (s, pat, rep) in [("ab", "", "-"), ("", "", "x"), ("Somebody ----s", "----s", "runs"), ("aaa", "aa", "b"), ("x", "y", "z")] {
        assert_eq!(ewe::subcat::replace_str(s, pat, rep), s.replace(pat, rep));
    }
    assert_eq!(ewe::subcat::replace_str("ab", "", "-"), "-a-b-");
}

#[test]
fn theme_script_of_joined_overrides_is_joined_scripts() {
    let a: Vec<(&str, Option<&str>)> = vec![("--primary", Some("#123456")), ("--accent", None)];
    let b: Vec<(&str, Option<&str>)> = vec![("--font-body", Some("a\"b"))];
    let joined = [a.clone(), b.clone()].concat();
    let whole = ewe::theme::build_theme_eval_js(&joined);
    let parts = ewe::theme::build_theme_eval_js(&a) + &ewe::theme::build_theme_eval_js(&b);
    assert_eq!(whole, parts);
    assert_eq!(
        ewe::theme::build_theme_eval_js(&[("--accent", None)]),
        "document.documentElement.style.removeProperty('--accent');"
    );
}

#[test]
fn swapped_relation_types_are_stored_under_another_name() {
    for t in synset_relation_types().iter().chain(sense_relation_types().iter()) {
        assert_eq!(t.swapped, t.store_as != t.key);
    }
}

#[test]
fn trim_agrees_with_str_trim() {
    for s in ["  a b  ", "\u{3000}x\u{85}", "", " \t\n", "no-space", "\u{200b}z\u{200b}"] {
        assert_eq!(ewe::text::trim(s), s.trim());
    }
}
