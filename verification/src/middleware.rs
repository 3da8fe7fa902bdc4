//! Choosing the language of a request from its preference cookie and its
//! `Accept-Language` header.

use vstd::prelude::*;
use vstd::string::*;
use crate::config::{default_code, default_language, supported, validate_language, validated};
use crate::text::{
    after, before, has, lower, lowercase, option_str_text, option_text, same_text, split_after,
    split_before, trim, trimmed,
};

verus! {

/// The language chosen for one request.
#[derive(Clone, Debug)]
pub struct LanguageInfo {
    pub lang: String,
}

/// The language that one `name=value` pair of a cookie header names: the value
/// up to a second `=`, where the name is `lang` and a `=` follows it.
pub open spec fn pair_lang(pair: Seq<char>) -> Option<Seq<char>> {
    if before(pair, '=') == "lang"@ && has(pair, '=') {
        Some(before(after(pair, '='), '='))
    } else {
        None
    }
}

/// The language that a cookie header names: that of the first of its pairs,
/// cut at `;` and trimmed, that names one.
pub open spec fn cookie_lang(cookie: Seq<char>) -> Option<Seq<char>>
    decreases cookie.len(),
{
    let found = pair_lang(trim(before(cookie, ';')));
    if found is Some {
        found
    } else if has(cookie, ';') {
        cookie_lang(after(cookie, ';'))
    } else {
        None
    }
}

/// The primary subtag of the first tag of an `Accept-Language` header: what
/// stands before the first `,`, `;` and `-`, trimmed and in lower case.
pub open spec fn header_tag(header: Seq<char>) -> Seq<char> {
    lower(trim(before(before(before(header, ','), ';'), '-')))
}

/// The language that the header asks for; the fallback code where the header is
/// absent or its first tag is empty.
pub open spec fn header_lang(header: Option<Seq<char>>) -> Seq<char> {
    match header {
        Some(h) => if header_tag(h).len() > 0 {
            header_tag(h)
        } else {
            default_code()
        },
        None => default_code(),
    }
}

/// The language of a request: the cookie's where it names one, else the
/// header's, and the fallback code where that one is not served.
pub open spec fn detected(cookie: Option<Seq<char>>, header: Option<Seq<char>>) -> Seq<char> {
    let named = match cookie {
        Some(c) => cookie_lang(c),
        None => None,
    };
    match named {
        Some(l) => validated(l),
        None => validated(header_lang(header)),
    }
}

/// A cookie that names a served language decides, whatever the header says.
pub proof fn lemma_cookie_precedence(cookie: Seq<char>, header: Option<Seq<char>>)
    requires
        cookie_lang(cookie) is Some,
        supported(cookie_lang(cookie).unwrap()),
    ensures
        detected(Some(cookie), header) == cookie_lang(cookie).unwrap(),
{
}

/// Without a cookie, a header whose primary subtag is a served language decides.
pub proof fn lemma_header_decides(header: Seq<char>)
    requires
        supported(header_tag(header)),
    ensures
        detected(None, Some(header)) == header_tag(header),
{
    reveal_strlit("en");
    reveal_strlit("es");
    reveal_strlit("fr");
}

/// Whatever the cookie and the header hold, a served language is chosen.
pub proof fn lemma_detected_is_supported(cookie: Option<Seq<char>>, header: Option<Seq<char>>)
    ensures
        supported(detected(cookie, header)),
{
}

/// Without a cookie and without a header the fallback language is chosen.
pub proof fn lemma_no_signal()
    ensures
        detected(None, None) == default_code(),
{
}

/// A cookie that names a language that is not served, and no header, give the
/// fallback language.
pub proof fn lemma_unsupported_cookie(cookie: Seq<char>)
    requires
        cookie_lang(cookie) is Some,
        !supported(cookie_lang(cookie).unwrap()),
    ensures
        detected(Some(cookie), None) == default_code(),
{
}

/// The language that one trimmed `name=value` pair names, if it names one.
pub fn lang_of_pair(pair: &str) -> (r: Option<String>)
    ensures
        option_text(r) == pair_lang(pair@),
{
    if same_text(split_before(pair, '='), "lang") {
        match split_after(pair, '=') {
            Some(value) => Some(String::from_str(split_before(value, '='))),
            None => None,
        }
    } else {
        None
    }
}

/// The language that the `Cookie` header names, if it names one.
pub fn extract_lang_from_cookie(cookie_str: &str) -> (r: Option<String>)
    ensures
        option_text(r) == cookie_lang(cookie_str@),
{
    let mut rest: &str = cookie_str;
    loop
        invariant
            cookie_lang(rest@) == cookie_lang(cookie_str@),
        decreases rest@.len(),
    {
        let found = lang_of_pair(trimmed(split_before(rest, ';')));
        if found.is_some() {
            return found;
        }
        match split_after(rest, ';') {
            Some(tail) => {
                rest = tail;
            },
            None => {
                return None;
            },
        }
    }
}

/// The language that the `Accept-Language` header asks for, or the fallback
/// code where there is no header or its first tag is empty.
pub fn extract_lang_from_header(accept_language: Option<&str>) -> (r: String)
    ensures
        r@ == header_lang(option_str_text(accept_language)),
{
    match accept_language {
        Some(header) => {
            let first = split_before(header, ',');
            let tag = split_before(first, ';');
            let primary = trimmed(split_before(tag, '-'));
            let code = lowercase(primary);
            if code.as_str().unicode_len() > 0 {
                code
            } else {
                default_language()
            }
        },
        None => default_language(),
    }
}

/// Chooses the language of a request from the text of its `Cookie` header and of
/// its `Accept-Language` header, each absent where the request has none or where
/// it is not text.
pub fn language_detector(cookie: Option<&str>, accept_language: Option<&str>) -> (r: LanguageInfo)
    ensures
        r.lang@ == detected(option_str_text(cookie), option_str_text(accept_language)),
        supported(r.lang@),
{
    let named = match cookie {
        Some(c) => extract_lang_from_cookie(c),
        None => None,
    };
    let lang = match named {
        Some(l) => l,
        None => extract_lang_from_header(accept_language),
    };
    LanguageInfo { lang: validate_language(lang.as_str()) }
}

} // verus!
