use ewe::settings::{resolve_relative_paths, EweSettings};
use ewe::theme::{build_theme_eval_js, is_valid_font_value, is_valid_hex_color, ThemeOverrides};
use ewe::web::{has_sense, oewn_key, strip_synset_id_prefix};
use ewe::ids::SynsetId;

#[test]
fn is_valid_hex_color_accepts_3_4_6_8_digit_forms_and_rejects_others() {
    assert!(is_valid_hex_color("#fff"));
    assert!(is_valid_hex_color("#ffff"));
    assert!(is_valid_hex_color("#002868"));
    assert!(is_valid_hex_color("#002868ff"));
    assert!(!is_valid_hex_color("002868")); // missing #
    assert!(!is_valid_hex_color("#02868")); // 5 digits
    assert!(!is_valid_hex_color("#00286z")); // non-hex char
    assert!(!is_valid_hex_color("navy")); // named color, not hex
    assert!(!is_valid_hex_color("#"));
}

#[test]
fn is_valid_font_value_allows_quotes_and_commas_rejects_injection_chars() {
    assert!(is_valid_font_value("'Times New Roman', serif"));
    assert!(is_valid_font_value("Dosis, sans-serif"));
    for bad in ["Evil\"", "Evil\\", "Evil<b>", "Evil>", "Evil;alert(1)", "Evil\n"] {
        assert!(!is_valid_font_value(bad), "expected {bad:?} to be rejected");
    }
    assert!(!is_valid_font_value(""));
}

#[test]
fn validate_rejects_first_bad_color_field() {
    let theme = ThemeOverrides { primary: Some("notacolor".to_string()), ..Default::default() };
    assert!(theme.validate().is_err());
}

#[test]
fn validate_accepts_valid_overrides_and_leaves_rest_none() {
    let theme = ThemeOverrides {
        primary: Some("#002868".to_string()),
        font_body: Some("'Times New Roman', serif".to_string()),
        ..Default::default()
    };
    assert!(theme.validate().is_ok());
}

#[test]
fn test_strip_synset_id_prefix_oewn() {
    assert_eq!(strip_synset_id_prefix("oewn-00001740-n", "oewn"), Some("00001740-n".to_string()));
}

#[test]
fn test_strip_synset_id_prefix_ewn() {
    assert_eq!(strip_synset_id_prefix("ewn-00001740-n", "oewn"), Some("00001740-n".to_string()));
}

#[test]
fn test_strip_synset_id_prefix_none() {
    assert_eq!(strip_synset_id_prefix("00001740-n", "oewn"), None);
}

#[test]
fn test_oewn_key() {
    let id = SynsetId::new("00001740-n");
    assert_eq!(oewn_key(&id), "oewn-00001740-n");
}

#[test]
fn test_has_sense_single() {
    assert!(has_sense("oewn-00001740-n", "oewn-00001740-n"));
    assert!(!has_sense("oewn-00001740-n", "oewn-00001741-n"));
}

#[test]
fn test_has_sense_combined() {
    let value = "oewn-00029976-n;oewn-01025762-n";
    assert!(has_sense(value, "oewn-00029976-n"));
    assert!(has_sense(value, "oewn-01025762-n"));
    assert!(!has_sense(value, "oewn-00000000-n"));
}

fn parsed_settings(database: &str) -> EweSettings {
    let mut s = EweSettings::default();
    s.database = database.to_string();
    s
}

#[test]
fn load_resolves_relative_paths_against_settings_toml_directory() {
    let dir = std::path::Path::new("/tmp/ewe-settings-test-resolve");
    let settings_path = dir.join("settings.toml");
    let mut settings = parsed_settings("wordnet.db");
    settings.wordnet_source = Some(".".to_string());
    settings.corpus_database = "semcor.db".to_string();
    settings.corpus_source = Some("../semcor.yaml".to_string());
    settings.logo = "src/assets/english.svg".to_string();

    resolve_relative_paths(&mut settings, settings_path.to_str().unwrap());

    assert_eq!(settings.database, dir.join("wordnet.db").to_string_lossy());
    assert_eq!(
        settings.wordnet_source.as_deref(),
        Some(dir.join(".").to_string_lossy().to_string()).as_deref()
    );
    assert_eq!(settings.corpus_database, dir.join("semcor.db").to_string_lossy());
    assert_eq!(
        settings.corpus_source.as_deref(),
        Some(dir.join("../semcor.yaml").to_string_lossy().to_string()).as_deref()
    );
    assert_eq!(settings.logo, dir.join("src/assets/english.svg").to_string_lossy());
}

#[test]
fn bare_filename_has_empty_parent() {
    assert_eq!(
        std::path::Path::new("settings.toml").parent(),
        Some(std::path::Path::new(""))
    );
}

#[test]
fn load_leaves_absolute_paths_unchanged() {
    let settings_path = std::path::Path::new("/tmp/ewe-settings-test-absolute").join("settings.toml");
    let mut settings = parsed_settings("/absolute/path/wordnet.db");
    resolve_relative_paths(&mut settings, settings_path.to_str().unwrap());
    assert_eq!(settings.database, "/absolute/path/wordnet.db");
}

#[test]
fn build_theme_eval_js_sets_present_and_clears_absent() {
    let js = build_theme_eval_js(&[
        ("--color-primary", Some("#002868")),
        ("--color-accent", None),
    ]);
    assert!(js.contains(
        "document.documentElement.style.setProperty('--color-primary', \"#002868\");"
    ));
    assert!(js.contains("document.documentElement.style.removeProperty('--color-accent');"));
}

#[test]
fn build_theme_eval_js_escapes_values() {
    let js = build_theme_eval_js(&[("--font-body", Some("weird\"value"))]);
    assert!(js.contains("weird\\\"value"));
    assert!(!js.contains("\"weird\"value\""));
}

#[test]
fn build_theme_eval_js_all_none_yields_only_removes() {
    let js = build_theme_eval_js(&[("--color-primary", None), ("--color-accent", None)]);
    assert!(js.contains("removeProperty('--color-primary')"));
    assert!(js.contains("removeProperty('--color-accent')"));
    assert!(!js.contains("setProperty"));
}

#[test]
fn build_theme_eval_js_empty_input_yields_empty_string() {
    assert_eq!(build_theme_eval_js(&[]), "");
}
