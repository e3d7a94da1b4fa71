use actix_i18n::catalog::CatalogSet;
use actix_i18n::negotiate::{
    negotiate, select_tag, MissingStateError, MissingTranslationsError,
};
use actix_i18n::text::{chars_of, preference_tags, prefix_of_token, same_chars, split_commas};

fn set_of(tags: &[&str], default: &str) -> CatalogSet<String> {
    let mut cs = CatalogSet::new(default.to_string());
    for t in tags {
        assert!(cs.add(t.to_string(), format!("catalog:{}", t)));
    }
    cs
}

fn chars(s: &str) -> Vec<char> {
    s.chars().collect()
}

fn resolved(cs: &CatalogSet<String>, raw: Option<&str>) -> (String, String) {
    match negotiate(cs, raw) {
        Ok(i) => (i.lang, i.catalog.clone()),
        Err(e) => panic!("unexpected failure for {}", e.0),
    }
}

#[test]
fn repeated_negotiation_is_identical() {
    let cs = set_of(&["en", "fr"], "en");
    for raw in [Some("fr,en"), Some("de"), None, Some(" fr-CA ;q=1")] {
        assert_eq!(resolved(&cs, raw), resolved(&cs, raw));
    }
}

#[test]
fn first_listed_supported_wins() {
    let cs = set_of(&["en", "fr"], "en");
    assert_eq!(resolved(&cs, Some("fr,en")), ("fr".to_string(), "catalog:fr".to_string()));
}

#[test]
fn unsupported_preference_is_skipped() {
    let cs = set_of(&["en"], "en");
    assert_eq!(resolved(&cs, Some("de,en")).0, "en");
}

#[test]
fn region_and_quality_are_stripped() {
    let cs = set_of(&["en"], "en");
    assert_eq!(resolved(&cs, Some("en-US;q=0.9")).0, "en");
}

#[test]
fn absent_header_gives_default() {
    let cs = set_of(&["en", "fr"], "en");
    assert_eq!(resolved(&cs, None), ("en".to_string(), "catalog:en".to_string()));
}

#[test]
fn no_match_gives_default() {
    let cs = set_of(&["en", "fr"], "en");
    assert_eq!(resolved(&cs, Some("de,es")).0, "en");
}

#[test]
fn unregistered_default_fails() {
    let cs = set_of(&["fr"], "en");
    match negotiate(&cs, Some("de")) {
        Ok(_) => panic!("expected a failure"),
        Err(e) => assert_eq!(e.tag(), "en"),
    }
}

#[test]
fn empty_and_malformed_tokens_are_ignored() {
    let cs = set_of(&["en", "fr"], "en");
    assert_eq!(resolved(&cs, Some(",,;q=,fr")).0, "fr");
}

#[test]
fn matching_is_case_sensitive() {
    let cs = set_of(&["en"], "zz");
    assert!(negotiate(&cs, Some("EN")).is_err());
    let cs = set_of(&["en", "de"], "de");
    assert_eq!(resolved(&cs, Some("EN")).0, "de");
}

#[test]
fn later_supported_preference_beats_default() {
    let cs = set_of(&["en", "fr", "es"], "en");
    assert_eq!(resolved(&cs, Some("de, it ,es-MX")), ("es".to_string(), "catalog:es".to_string()));
}

#[test]
fn empty_header_gives_default() {
    let cs = set_of(&["en", "fr"], "fr");
    assert_eq!(resolved(&cs, Some("")).0, "fr");
    assert_eq!(select_tag(&cs, Some("")), "fr");
}

#[test]
fn white_space_around_tokens_is_trimmed() {
    let cs = set_of(&["en", "fr"], "en");
    assert_eq!(resolved(&cs, Some("de,\t fr ;q=0.5")).0, "fr");
}

#[test]
fn empty_set_fails_on_default() {
    let cs: CatalogSet<String> = CatalogSet::new("en".to_string());
    let e = negotiate(&cs, None).err().unwrap();
    assert_eq!(e.0, "en");
    assert_eq!(e.message(), "Could not find translations for en");
    assert_eq!(e.description(), "Could not find translations");
}

#[test]
fn missing_state_messages() {
    let e = MissingStateError;
    assert_eq!(e.message(), "Could not retrieve state");
    assert_eq!(e.description(), "Could not retrieve state");
    let m = MissingTranslationsError("fr".to_string());
    assert_eq!(m.message(), "Could not find translations for fr");
}

#[test]
fn catalog_set_rejects_duplicate_tags() {
    let mut cs: CatalogSet<u32> = CatalogSet::new("en".to_string());
    assert!(cs.add("en".to_string(), 1));
    assert!(cs.add("fr".to_string(), 2));
    assert!(!cs.add("en".to_string(), 3));
    assert_eq!(cs.len(), 2);
    assert_eq!(cs.lookup("en"), Some(&1));
    assert_eq!(cs.lookup("fr"), Some(&2));
    assert_eq!(cs.lookup("de"), None);
    assert!(cs.contains("fr"));
    assert!(!cs.contains("FR"));
    assert_eq!(cs.tag_at(1), "fr");
    assert_eq!(cs.default_tag(), "en");
    assert_eq!(cs.position(&chars("fr")), Some(1));
    assert_eq!(cs.position(&chars("")), None);
}

#[test]
fn preference_tags_in_order() {
    let got = preference_tags("en-US;q=0.9, fr ,;q=,DE-at");
    let want: Vec<Vec<char>> = vec![chars("en"), chars("fr"), chars(""), chars("DE")];
    assert_eq!(got, want);
    assert_eq!(preference_tags(""), vec![chars("")]);
}

#[test]
fn text_helpers() {
    assert_eq!(chars_of("aé,"), vec!['a', 'é', ',']);
    assert_eq!(split_commas(&chars("a,,b")), vec![chars("a"), chars(""), chars("b")]);
    assert_eq!(prefix_of_token(&chars("  zh-Hant-TW")), chars("zh"));
    assert_eq!(prefix_of_token(&chars("\u{3000}pt\u{a0};q=1")), chars("pt"));
    assert!(same_chars(&chars("ab"), &chars("ab")));
    assert!(!same_chars(&chars("ab"), &chars("abc")));
    assert!(!same_chars(&chars("ab"), &chars("aB")));
}
