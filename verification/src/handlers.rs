//! What each page of the application shows: the context of the home page, the
//! answer to a change of language and the fragments of the features.

use vstd::prelude::*;
use vstd::string::*;
use crate::config::{default_code, supported, validate_language, validated};
use crate::context::{ContextValue, TemplateContext, ValueView};
use crate::dict::Dict;
use crate::error::AppError;
use crate::language::{section, texts, LanguageManager};
use crate::middleware::{cookie_lang, detected, pair_lang, LanguageInfo};
use crate::text::{
    after, before, is_body, is_first_index, is_lead, lemma_body, lemma_first_index, lemma_lead,
    same_text, trim, whitespace,
};

verus! {

/// The query of a request to change the language.
#[derive(Clone, Debug)]
pub struct LanguageQuery {
    pub lang: String,
}

/// The text under `key`, or `fallback` where the map has none.
pub open spec fn text_or(m: Map<Seq<char>, Seq<char>>, key: Seq<char>, fallback: Seq<char>) -> Seq<
    char,
> {
    if m.contains_key(key) {
        m[key]
    } else {
        fallback
    }
}

/// The context of the home page in the language `lang`, whose catalog is
/// `catalog`, with the switcher offering `available`.
pub open spec fn home_view(
    catalog: Map<Seq<char>, Seq<char>>,
    lang: Seq<char>,
    available: Seq<Seq<char>>,
) -> Map<Seq<char>, ValueView> {
    Map::<Seq<char>, ValueView>::empty().insert("lang"@, ValueView::Text(lang)).insert(
        "title"@,
        ValueView::Text(text_or(catalog, "home.title"@, "Welcome"@)),
    ).insert("nav"@, ValueView::Section(section(catalog, "nav"@))).insert(
        "footer"@,
        ValueView::Section(section(catalog, "footer"@)),
    ).insert("content"@, ValueView::Section(section(catalog, "home"@))).insert(
        "available_languages"@,
        ValueView::List(available),
    )
}

/// The preference cookie that records `lang` for a year, for the whole site.
pub open spec fn cookie_text(lang: Seq<char>) -> Seq<char> {
    "lang="@ + lang + "; Path=/; Max-Age=31536000; SameSite=Lax"@
}

/// The fragment that presents feature `id`, with the texts of the section
/// `content` where it has them.
pub open spec fn feature_html(content: Map<Seq<char>, Seq<char>>, id: Seq<char>) -> Seq<char> {
    "<h3>"@ + text_or(content, "feature"@ + id + "_title"@, "Feature "@ + id) + "</h3><p>"@
        + text_or(content, "feature"@ + id + "_desc"@, "Description of feature "@ + id) + "</p>"@
}

/// `id` names one of the features.
pub open spec fn known_feature(id: Seq<char>) -> bool {
    id == "1"@ || id == "2"@ || id == "3"@
}

/// The answer to a request for the feature `id`.
pub open spec fn feature_result(
    content: Map<Seq<char>, Seq<char>>,
    id: Seq<char>,
    r: Result<String, AppError>,
) -> bool {
    if known_feature(id) {
        r matches Ok(html) && html@ == feature_html(content, id)
    } else {
        r matches Err(AppError::NotFound(m)) && m@ == "Feature '"@ + id + "' not found"@
    }
}

/// Whatever language a request asks to change to, the cookie records a served
/// one, and the fallback where the one asked for is not served.
pub proof fn lemma_cookie_records_served_language(raw: Seq<char>)
    ensures
        supported(validated(raw)),
        supported(raw) ==> cookie_text(validated(raw)) == cookie_text(raw),
        !supported(raw) ==> cookie_text(validated(raw)) == cookie_text(default_code()),
{
}

/// `code` can stand as the value of a cookie: it is not empty, holds neither `;`
/// nor `=`, and neither begins nor ends with white space.
pub open spec fn plain_code(code: Seq<char>) -> bool {
    &&& code.len() > 0
    &&& forall|i: int| 0 <= i < code.len() ==> code[i] != ';' && code[i] != '='
    &&& !whitespace(code[0])
    &&& !whitespace(code.last())
}

/// The language that the preference cookie records is the one that is read from it.
pub proof fn lemma_cookie_read_back(code: Seq<char>)
    requires
        plain_code(code),
    ensures
        cookie_lang(cookie_text(code)) == Some(code),
{
    reveal_strlit("lang=");
    reveal_strlit("lang");
    reveal_strlit("; Path=/; Max-Age=31536000; SameSite=Lax");
    let head = "lang="@;
    let tail = "; Path=/; Max-Age=31536000; SameSite=Lax"@;
    let pair = head + code;
    let s = cookie_text(code);
    assert(s =~= pair + tail);
    assert(is_first_index(s, ';', pair.len() as int)) by {
        assert forall|j: int| 0 <= j < pair.len() implies s[j] != ';' by {
            if j < 5 {
                assert(s[j] == head[j]);
            } else {
                assert(s[j] == code[j - 5]);
            }
        }
        assert(s[pair.len() as int] == tail[0]);
    }
    lemma_first_index(s, ';', pair.len() as int);
    assert(before(s, ';') =~= pair);
    assert(is_lead(pair, 0)) by {
        assert(pair[0] == 'l');
    }
    lemma_lead(pair, 0);
    assert(pair.subrange(0, pair.len() as int) =~= pair);
    assert(is_body(pair, pair.len() as int)) by {
        assert(pair[pair.len() - 1] == code.last());
    }
    lemma_body(pair, pair.len() as int);
    assert(trim(pair) =~= pair);
    assert(is_first_index(pair, '=', 4)) by {
        assert(pair[0] == 'l' && pair[1] == 'a' && pair[2] == 'n' && pair[3] == 'g');
        assert(pair[4] == '=');
    }
    lemma_first_index(pair, '=', 4);
    assert(before(pair, '=') =~= "lang"@);
    assert(after(pair, '=') =~= code);
    assert(is_first_index(code, '=', code.len() as int));
    lemma_first_index(code, '=', code.len() as int);
    assert(before(code, '=') =~= code);
    assert(pair_lang(pair) == Some(code));
}

/// Every served language can stand as the value of a cookie.
pub proof fn lemma_supported_is_plain(code: Seq<char>)
    requires
        supported(code),
    ensures
        plain_code(code),
{
    reveal_strlit("en");
    reveal_strlit("es");
    reveal_strlit("fr");
}

/// The language that a change of language records in the cookie is the one chosen
/// for a later request that brings the cookie back, whatever its header says.
pub proof fn lemma_change_is_remembered(raw: Seq<char>, header: Option<Seq<char>>)
    ensures
        detected(Some(cookie_text(validated(raw))), header) == validated(raw),
{
    lemma_supported_is_plain(validated(raw));
    lemma_cookie_read_back(validated(raw));
}

/// The language attached to a request, or `en` where none was attached.
pub fn extract_language(info: Option<&LanguageInfo>) -> (r: String)
    ensures
        r@ == match info {
            Some(i) => i.lang@,
            None => "en"@,
        },
{
    match info {
        Some(i) => i.lang.clone(),
        None => String::from_str("en"),
    }
}

/// The context of the home page in the language `lang`.
pub fn home_context(manager: &LanguageManager, lang: &str) -> (r: TemplateContext)
    requires
        manager.wf(),
    ensures
        r.wf(),
        r@ == home_view(manager.resolve(lang@), lang@, manager.codes()),
{
    let i18n = match manager.get_language(lang) {
        Some(c) => c,
        None => manager.get_default_language(),
    };
    let title = match i18n.get("home.title") {
        Some(t) => String::from_str(t),
        None => String::from_str("Welcome"),
    };
    TemplateContext::new().insert("lang", ContextValue::Text(String::from_str(lang))).insert(
        "title",
        ContextValue::Text(title),
    ).insert("nav", ContextValue::Section(i18n.get_section("nav"))).insert(
        "footer",
        ContextValue::Section(i18n.get_section("footer")),
    ).insert("content", ContextValue::Section(i18n.get_section("home"))).insert(
        "available_languages",
        ContextValue::List(manager.get_available_languages()),
    )
}

/// The context of the home page for a request with the language `info` attached.
pub fn index(manager: &LanguageManager, info: Option<&LanguageInfo>) -> (r: TemplateContext)
    requires
        manager.wf(),
    ensures
        r.wf(),
        r@ == home_view(
            manager.resolve(
                match info {
                    Some(i) => i.lang@,
                    None => "en"@,
                },
            ),
            match info {
                Some(i) => i.lang@,
                None => "en"@,
            },
            manager.codes(),
        ),
{
    let lang = extract_language(info);
    home_context(manager, lang.as_str())
}

/// The preference cookie that records `lang`.
pub fn language_cookie(lang: &str) -> (r: String)
    ensures
        r@ == cookie_text(lang@),
{
    String::from_str("lang=").concat(lang).concat("; Path=/; Max-Age=31536000; SameSite=Lax")
}

/// The answer to a request to change the language: the context of the home page
/// in the language asked for, or in the fallback where that one is not served,
/// and the cookie that records the language shown.
pub fn change_language(manager: &LanguageManager, query: &LanguageQuery) -> (r: (
    TemplateContext,
    String,
))
    requires
        manager.wf(),
    ensures
        r.0.wf(),
        r.0@ == home_view(
            manager.resolve(validated(query.lang@)),
            validated(query.lang@),
            manager.codes(),
        ),
        r.1@ == cookie_text(validated(query.lang@)),
{
    let lang = validate_language(query.lang.as_str());
    let context = home_context(manager, lang.as_str());
    let cookie = language_cookie(lang.as_str());
    (context, cookie)
}

/// The text of `content` under `key`, or `fallback` where it has none.
pub fn section_text(content: &Dict<String>, key: &str, fallback: String) -> (r: String)
    requires
        content.wf(),
    ensures
        r@ == text_or(texts(content@), key@, fallback@),
{
    match content.get(key) {
        Some(t) => t.clone(),
        None => fallback,
    }
}

/// The fragment that presents feature `id` in the language `lang`, or the
/// error that answers an unknown feature.
pub fn get_feature(manager: &LanguageManager, lang: &str, id: &str) -> (r: Result<String, AppError>)
    requires
        manager.wf(),
    ensures
        feature_result(section(manager.resolve(lang@), "home"@), id@, r),
{
    if same_text(id, "1") || same_text(id, "2") || same_text(id, "3") {
        let i18n = match manager.get_language(lang) {
            Some(c) => c,
            None => manager.get_default_language(),
        };
        let content = i18n.get_section("home");
        let title_key = String::from_str("feature").concat(id).concat("_title");
        let desc_key = String::from_str("feature").concat(id).concat("_desc");
        let title = section_text(
            &content,
            title_key.as_str(),
            String::from_str("Feature ").concat(id),
        );
        let desc = section_text(
            &content,
            desc_key.as_str(),
            String::from_str("Description of feature ").concat(id),
        );
        let html = String::from_str("<h3>").concat(title.as_str()).concat("</h3><p>").concat(
            desc.as_str(),
        ).concat("</p>");
        Ok(html)
    } else {
        let message = String::from_str("Feature '").concat(id).concat("' not found");
        Err(AppError::NotFound(message))
    }
}

} // verus!
