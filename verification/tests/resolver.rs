use axum_apiserver::config::{
    default_language, is_supported, supported_languages, validate_language,
};
use axum_apiserver::middleware::{
    extract_lang_from_cookie, extract_lang_from_header, lang_of_pair, language_detector,
};
use axum_apiserver::text::{
    find_char, lowercase, lowercase_char, same_text, split_after, split_before, starts_with,
    trimmed,
};

#[test]
fn cookie_takes_precedence_over_header() {
    let info = language_detector(Some("lang=fr"), Some("de-DE,en;q=0.8"));
    assert_eq!(info.lang, "fr");
}

#[test]
fn header_primary_subtag_is_used_without_cookie() {
    let info = language_detector(None, Some("es-MX,en;q=0.5"));
    assert_eq!(info.lang, "es");
}

#[test]
fn no_cookie_and_no_header_give_default() {
    assert_eq!(language_detector(None, None).lang, "en");
}

#[test]
fn unsupported_cookie_gives_default() {
    assert_eq!(language_detector(Some("lang=xx"), None).lang, "en");
    assert_eq!(language_detector(Some("lang=xx"), Some("")).lang, "en");
    assert_eq!(language_detector(Some("lang=xx"), Some("fr")).lang, "en");
}

#[test]
fn cookie_without_lang_falls_through_to_header() {
    assert_eq!(language_detector(Some("session=abc; theme=dark"), Some("fr-FR")).lang, "fr");
    assert_eq!(language_detector(Some("lang"), Some("es")).lang, "es");
    assert_eq!(language_detector(Some(""), Some("es")).lang, "es");
}

#[test]
fn unsupported_header_gives_default() {
    assert_eq!(language_detector(None, Some("de-DE,fr;q=0.8")).lang, "en");
    assert_eq!(language_detector(None, Some("*")).lang, "en");
}

#[test]
fn malformed_headers_give_default() {
    for h in ["", "   ", ",", ";q=0.8", "-", ",es", ";;;", "-es"] {
        assert_eq!(language_detector(None, Some(h)).lang, "en");
        assert_eq!(extract_lang_from_header(Some(h)), "en");
    }
}

#[test]
fn header_tag_is_lower_cased_and_trimmed() {
    assert_eq!(extract_lang_from_header(Some("ES-mx,en")), "es");
    assert_eq!(extract_lang_from_header(Some(" Fr ;q=0.9")), "fr");
    assert_eq!(extract_lang_from_header(Some("de")), "de");
    assert_eq!(extract_lang_from_header(Some("pt-BR;q=0.3,en")), "pt");
    assert_eq!(extract_lang_from_header(None), "en");
    assert_eq!(language_detector(None, Some("FR-ca")).lang, "fr");
}

#[test]
fn cookie_pairs_are_searched_in_order() {
    assert_eq!(extract_lang_from_cookie("lang=fr"), Some("fr".to_string()));
    assert_eq!(extract_lang_from_cookie("a=1; lang=es; lang=fr"), Some("es".to_string()));
    assert_eq!(extract_lang_from_cookie("a=1;   lang=es  ;b=2"), Some("es".to_string()));
    assert_eq!(extract_lang_from_cookie("a=1;\tlang=fr"), Some("fr".to_string()));
    assert_eq!(extract_lang_from_cookie("lang=fr=extra"), Some("fr".to_string()));
    assert_eq!(extract_lang_from_cookie("lang="), Some("".to_string()));
    assert_eq!(extract_lang_from_cookie("lang; lang=en"), Some("en".to_string()));
}

#[test]
fn cookie_without_wellformed_lang_is_absent() {
    assert_eq!(extract_lang_from_cookie(""), None);
    assert_eq!(extract_lang_from_cookie("lang"), None);
    assert_eq!(extract_lang_from_cookie("language=fr"), None);
    assert_eq!(extract_lang_from_cookie("xlang=fr; LANG=fr"), None);
    assert_eq!(extract_lang_from_cookie("a=lang=fr"), None);
    assert_eq!(extract_lang_from_cookie("lang =fr"), None);
}

#[test]
fn pair_names_language_only_under_the_name_lang() {
    assert_eq!(lang_of_pair("lang=de"), Some("de".to_string()));
    assert_eq!(lang_of_pair("lang"), None);
    assert_eq!(lang_of_pair("=lang"), None);
}

#[test]
fn validation_keeps_served_codes_and_replaces_others() {
    for code in ["en", "es", "fr"] {
        assert!(is_supported(code));
        assert_eq!(validate_language(code), code);
    }
    for code in ["", "de", "EN", "en ", "english", "e"] {
        assert!(!is_supported(code));
        assert_eq!(validate_language(code), "en");
    }
    assert_eq!(default_language(), "en");
    assert_eq!(
        supported_languages(),
        vec!["en".to_string(), "es".to_string(), "fr".to_string()]
    );
}

#[test]
fn detected_language_is_always_served() {
    let cookies = [None, Some("lang=fr"), Some("lang=zz"), Some("x=1"), Some("lang=")];
    let headers = [None, Some("es"), Some("de"), Some(""), Some("FR,en")];
    for c in cookies {
        for h in headers {
            assert!(is_supported(&language_detector(c, h).lang));
        }
    }
}

#[test]
fn text_cutting_and_trimming() {
    assert_eq!(find_char("a;b;c", ';'), 1);
    assert_eq!(find_char("abc", ';'), 3);
    assert_eq!(find_char("", ';'), 0);
    assert_eq!(find_char("é;x", ';'), 1);
    assert_eq!(split_before("a;b;c", ';'), "a");
    assert_eq!(split_before("abc", ';'), "abc");
    assert_eq!(split_after("a;b;c", ';'), Some("b;c"));
    assert_eq!(split_after("abc;", ';'), Some(""));
    assert_eq!(split_after("abc", ';'), None);
    assert_eq!(trimmed("  a b \t\n"), "a b");
    assert_eq!(trimmed("\u{a0}x\u{3000}"), "x");
    assert_eq!(trimmed("   "), "");
    assert_eq!(trimmed(""), "");
    assert_eq!(trimmed("x"), "x");
}

#[test]
fn text_lowering_and_prefixes() {
    assert_eq!(lowercase("AbC-xYZ09"), "abc-xyz09");
    assert_eq!(lowercase("ÀÉ@[`{"), "ÀÉ@[`{");
    assert_eq!(lowercase(""), "");
    assert_eq!(lowercase_char('A'), 'a');
    assert_eq!(lowercase_char('Z'), 'z');
    assert_eq!(lowercase_char('a'), 'a');
    assert_eq!(lowercase_char('@'), '@');
    assert_eq!(lowercase_char('['), '[');
    assert!(starts_with("nav.home", "nav."));
    assert!(starts_with("nav.", "nav."));
    assert!(starts_with("x", ""));
    assert!(!starts_with("nav", "nav."));
    assert!(!starts_with("navx.home", "nav."));
    assert!(same_text("lang", "lang"));
    assert!(!same_text("lang", "lanG"));
}

#[test]
fn whitespace_is_the_unicode_property() {
    let mut code: u32 = 0;
    while code <= 0x10FFFF {
        if let Some(c) = char::from_u32(code) {
            assert_eq!(axum_apiserver::text::is_whitespace(c), c.is_whitespace());
        }
        code += 1;
    }
}

#[test]
fn lowercase_char_is_the_ascii_lower_case() {
    let mut code: u32 = 0;
    while code <= 0x10FFFF {
        if let Some(c) = char::from_u32(code) {
            assert_eq!(lowercase_char(c), c.to_ascii_lowercase());
        }
        code += 1;
    }
}
