use axum_apiserver::error::AppError;
use axum_apiserver::language::{Language, LanguageManager};

fn pair(k: &str, v: &str) -> (String, String) {
    (k.to_string(), v.to_string())
}

fn sample_document() -> &'static str {
    r#"{
        "es": {"home.title": "Bienvenido", "nav.home": "Inicio", "nav.about": "Acerca"},
        "en": {"home.title": "Welcome home", "nav.home": "Home", "footer.copy": "Copyright"}
    }"#
}

#[test]
fn get_returns_stored_text() {
    let lang = Language::from_pairs(&vec![pair("home.title", "Hello"), pair("nav.a", "A")]);
    assert_eq!(lang.get("home.title"), Some("Hello"));
    assert_eq!(lang.get("nav.a"), Some("A"));
}

#[test]
fn get_missing_key_is_absent() {
    let lang = Language::from_pairs(&vec![pair("home.title", "Hello")]);
    assert_eq!(lang.get("home"), None);
    assert_eq!(lang.get(""), None);
    assert_eq!(lang.get("home.title.more"), None);
}

#[test]
fn later_pair_overrides_earlier_pair() {
    let lang = Language::from_pairs(&vec![pair("k", "first"), pair("k", "second")]);
    assert_eq!(lang.get("k"), Some("second"));
}

#[test]
fn section_holds_exactly_the_prefixed_entries() {
    let lang = Language::from_pairs(&vec![
        pair("nav.a", "Alpha"),
        pair("nav.b", "Beta"),
        pair("other.c", "Gamma"),
    ]);
    let nav = lang.get_section("nav");
    assert_eq!(nav.len(), 2);
    assert_eq!(nav.get("a").map(|s| s.as_str()), Some("Alpha"));
    assert_eq!(nav.get("b").map(|s| s.as_str()), Some("Beta"));
    assert!(nav.get("c").is_none());
    assert!(nav.get("nav.a").is_none());
}

#[test]
fn section_without_entries_is_empty() {
    let lang = Language::from_pairs(&vec![pair("nav.a", "Alpha"), pair("navigation.b", "Beta")]);
    assert_eq!(lang.get_section("footer").len(), 0);
    let nav = lang.get_section("nav");
    assert_eq!(nav.len(), 1);
    assert!(nav.get("igation.b").is_none());
}

#[test]
fn section_needs_the_separating_dot() {
    let lang = Language::from_pairs(&vec![pair("nav", "bare"), pair("nav.", "empty rest")]);
    let nav = lang.get_section("nav");
    assert_eq!(nav.len(), 1);
    assert_eq!(nav.get("").map(|s| s.as_str()), Some("empty rest"));
}

#[test]
fn section_keeps_nested_dots_and_non_ascii_text() {
    let lang = Language::from_pairs(&vec![pair("año.título.x", "señor"), pair("año.b", "ü")]);
    let s = lang.get_section("año");
    assert_eq!(s.len(), 2);
    assert_eq!(s.get("título.x").map(|s| s.as_str()), Some("señor"));
    assert_eq!(s.get("b").map(|s| s.as_str()), Some("ü"));
}

#[test]
fn section_leaves_the_catalog_unchanged() {
    let lang = Language::from_pairs(&vec![pair("nav.a", "Alpha"), pair("other.c", "Gamma")]);
    let _ = lang.get_section("nav");
    let _ = lang.get("nav.a");
    assert_eq!(lang.get("nav.a"), Some("Alpha"));
    assert_eq!(lang.get("other.c"), Some("Gamma"));
    assert_eq!(lang.get("a"), None);
}

#[test]
fn load_takes_first_language_of_document_as_default() {
    let manager = LanguageManager::new(sample_document()).unwrap();
    assert_eq!(manager.get_available_languages(), vec!["es".to_string(), "en".to_string()]);
    assert_eq!(manager.get_default_language().get("home.title"), Some("Bienvenido"));
}

#[test]
fn resolve_loaded_code_gives_its_own_catalog() {
    let manager = LanguageManager::new(sample_document()).unwrap();
    let en = manager.get_language("en").unwrap();
    assert_eq!(en.get("home.title"), Some("Welcome home"));
    assert_eq!(en.get("footer.copy"), Some("Copyright"));
    assert_eq!(en.get("nav.about"), None);
    let es = manager.get_language("es").unwrap();
    assert_eq!(es.get("nav.about"), Some("Acerca"));
}

#[test]
fn resolve_unknown_code_gives_default_catalog() {
    let manager = LanguageManager::new(sample_document()).unwrap();
    for code in ["fr", "xx", "", "EN", "en-US"] {
        let c = manager.get_language(code).unwrap();
        let d = manager.get_language("es").unwrap();
        assert_eq!(c.get("home.title"), d.get("home.title"));
        assert_eq!(c.get("nav.home"), Some("Inicio"));
        assert_eq!(c.get("footer.copy"), None);
    }
}

#[test]
fn load_empty_document_fails() {
    match LanguageManager::new("{}") {
        Err(AppError::Language(m)) => assert_eq!(m, "No languages found in lang.json"),
        _ => panic!("an empty document must not load"),
    }
}

#[test]
fn load_unparsable_document_fails() {
    for text in ["", "not json", "[]", "{\"en\": 3}", "{\"en\": {\"a\": 1}}", "{\"en\": {}} x"] {
        match LanguageManager::new(text) {
            Err(AppError::Language(m)) => {
                assert!(m.starts_with("Failed to parse lang.json: "));
                assert!(m.len() > "Failed to parse lang.json: ".len());
            }
            _ => panic!("a malformed document must not load"),
        }
    }
}

#[test]
fn load_with_missing_supported_language_succeeds_and_reports_it() {
    let manager = LanguageManager::new(sample_document()).unwrap();
    assert_eq!(manager.missing_supported_languages(), vec!["fr".to_string()]);
    let only_de = LanguageManager::new(r#"{"de": {"home.title": "Willkommen"}}"#).unwrap();
    assert_eq!(
        only_de.missing_supported_languages(),
        vec!["en".to_string(), "es".to_string(), "fr".to_string()]
    );
    assert_eq!(only_de.get_language("en").unwrap().get("home.title"), Some("Willkommen"));
}

#[test]
fn load_with_all_supported_languages_reports_nothing() {
    let manager = LanguageManager::new(r#"{"fr": {}, "en": {}, "es": {}}"#).unwrap();
    assert!(manager.missing_supported_languages().is_empty());
    assert_eq!(
        manager.get_available_languages(),
        vec!["fr".to_string(), "en".to_string(), "es".to_string()]
    );
}

#[test]
fn from_entries_keeps_first_code_as_default_and_last_catalog_per_code() {
    let doc = vec![
        ("en".to_string(), vec![pair("k", "one")]),
        ("fr".to_string(), vec![pair("k", "deux")]),
        ("en".to_string(), vec![pair("k", "two")]),
    ];
    let manager = LanguageManager::from_entries(&doc).unwrap();
    assert_eq!(manager.get_available_languages(), vec!["en".to_string(), "fr".to_string()]);
    assert_eq!(manager.get_language("en").unwrap().get("k"), Some("two"));
    assert_eq!(manager.get_language("zz").unwrap().get("k"), Some("two"));
    assert_eq!(manager.get_default_language().get("k"), Some("two"));
    assert_eq!(manager.get_language("fr").unwrap().get("k"), Some("deux"));
}

#[test]
fn from_entries_without_languages_fails() {
    assert!(matches!(LanguageManager::from_entries(&vec![]), Err(AppError::Language(_))));
}

#[test]
fn cloned_registry_resolves_alike() {
    let manager = LanguageManager::new(sample_document()).unwrap();
    let copy = manager.clone();
    assert_eq!(copy.get_available_languages(), manager.get_available_languages());
    assert_eq!(copy.get_language("en").unwrap().get("nav.home"), Some("Home"));
    assert_eq!(copy.get_language("it").unwrap().get("nav.home"), Some("Inicio"));
}
