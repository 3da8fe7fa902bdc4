//! Translation catalogs: the strings of one language, and the registry of
//! all loaded languages with its fallback.

use vstd::prelude::*;
use vstd::string::*;
use std::sync::Arc;
use crate::dict::Dict;
use crate::error::AppError;
use crate::text::{is_prefix, starts_with};

verus! {

/// The texts of a map of strings.
pub open spec fn texts(m: Map<Seq<char>, String>) -> Map<Seq<char>, Seq<char>> {
    Map::new(|k: Seq<char>| m.contains_key(k), |k: Seq<char>| m[k]@)
}

/// Storing a string stores its text.
pub proof fn lemma_texts_insert(m: Map<Seq<char>, String>, k: Seq<char>, v: String)
    ensures
        texts(m.insert(k, v)) == texts(m).insert(k, v@),
{
    assert(texts(m.insert(k, v)) =~= texts(m).insert(k, v@));
}

/// No strings have no texts.
pub proof fn lemma_texts_empty()
    ensures
        texts(Map::<Seq<char>, String>::empty()) == Map::<Seq<char>, Seq<char>>::empty(),
{
    assert(texts(Map::<Seq<char>, String>::empty()) =~= Map::<Seq<char>, Seq<char>>::empty());
}

/// The texts of a list of key and value pairs.
pub open spec fn pairs_view(pairs: Seq<(String, String)>) -> Seq<(Seq<char>, Seq<char>)> {
    Seq::new(pairs.len(), |i: int| (pairs[i].0@, pairs[i].1@))
}

/// The map that a list of pairs stands for: of two pairs with one key the later counts.
pub open spec fn strings_of(pairs: Seq<(Seq<char>, Seq<char>)>) -> Map<Seq<char>, Seq<char>>
    decreases pairs.len(),
{
    if pairs.len() == 0 {
        Map::empty()
    } else {
        strings_of(pairs.drop_last()).insert(pairs.last().0, pairs.last().1)
    }
}

/// The full key of `short` inside the section `prefix`.
pub open spec fn section_key(prefix: Seq<char>, short: Seq<char>) -> Seq<char> {
    prefix + seq!['.'] + short
}

/// The entries of `m` whose key is `prefix`, a dot and something more, under that remainder.
pub open spec fn section(m: Map<Seq<char>, Seq<char>>, prefix: Seq<char>) -> Map<
    Seq<char>,
    Seq<char>,
> {
    Map::new(
        |short: Seq<char>| m.contains_key(section_key(prefix, short)),
        |short: Seq<char>| m[section_key(prefix, short)],
    )
}

/// One more entry adds to a section exactly when its key lies in the section.
pub proof fn lemma_section_insert(
    m: Map<Seq<char>, Seq<char>>,
    prefix: Seq<char>,
    k: Seq<char>,
    v: Seq<char>,
)
    ensures
        is_prefix(prefix + seq!['.'], k) ==> section(m.insert(k, v), prefix) == section(
            m,
            prefix,
        ).insert(k.subrange(prefix.len() as int + 1, k.len() as int), v),
        !is_prefix(prefix + seq!['.'], k) ==> section(m.insert(k, v), prefix) == section(m, prefix),
{
    let dotted = prefix + seq!['.'];
    assert forall|short: Seq<char>| #[trigger]
        section_key(prefix, short) == k implies is_prefix(dotted, k) && short == k.subrange(
        prefix.len() as int + 1,
        k.len() as int,
    ) by {
        assert(k.subrange(0, dotted.len() as int) =~= dotted);
        assert(k.subrange(prefix.len() as int + 1, k.len() as int) =~= short);
    }
    if is_prefix(dotted, k) {
        let rest = k.subrange(prefix.len() as int + 1, k.len() as int);
        assert(section_key(prefix, rest) =~= k) by {
            assert(k.subrange(0, dotted.len() as int) == dotted);
            assert(dotted + rest =~= k);
        }
        assert(section(m.insert(k, v), prefix) =~= section(m, prefix).insert(rest, v));
    } else {
        assert(section(m.insert(k, v), prefix) =~= section(m, prefix));
    }
}

/// The empty catalog has only empty sections.
pub proof fn lemma_section_empty(prefix: Seq<char>)
    ensures
        section(Map::empty(), prefix) == Map::<Seq<char>, Seq<char>>::empty(),
{
    assert(section(Map::empty(), prefix) =~= Map::<Seq<char>, Seq<char>>::empty());
}

/// The translated strings of one language.
#[derive(Clone, Debug)]
pub struct Language {
    strings: Dict<String>,
}

impl Language {
    /// The catalog holds each key once.
    pub closed spec fn wf(&self) -> bool {
        self.strings.wf()
    }

    /// The catalog as a map from key to translated text.
    pub closed spec fn view(&self) -> Map<Seq<char>, Seq<char>> {
        texts(self.strings@)
    }

    /// The catalog of the given pairs; of two pairs with one key the later counts.
    pub fn from_pairs(pairs: &Vec<(String, String)>) -> (r: Language)
        ensures
            r.wf(),
            r@ == strings_of(pairs_view(pairs@)),
    {
        let mut strings: Dict<String> = Dict::new();
        let ghost all = pairs_view(pairs@);
        let mut i: usize = 0;
        proof {
            lemma_texts_empty();
            assert(all.subrange(0, 0) =~= Seq::empty());
        }
        while i < pairs.len()
            invariant
                all == pairs_view(pairs@),
                i <= pairs@.len(),
                strings.wf(),
                texts(strings@) == strings_of(all.subrange(0, i as int)),
            decreases pairs@.len() - i,
        {
            let key = pairs[i].0.clone();
            let value = pairs[i].1.clone();
            proof {
                lemma_texts_insert(strings@, key@, value);
                assert(all.subrange(0, i + 1).drop_last() =~= all.subrange(0, i as int));
                assert(all.subrange(0, i + 1).last() == (key@, value@));
            }
            strings.insert(key, value);
            i += 1;
        }
        assert(all.subrange(0, i as int) =~= all);
        Language { strings }
    }

    /// The translated text stored under `key`, if there is one.
    pub fn get(&self, key: &str) -> (r: Option<&str>)
        requires
            self.wf(),
        ensures
            r is Some <==> self@.contains_key(key@),
            r matches Some(s) ==> s@ == self@[key@],
    {
        match self.strings.get(key) {
            Some(s) => Some(s.as_str()),
            None => None,
        }
    }

    /// The entries whose key begins with `prefix` and a dot, each under the rest of
    /// its key. The catalog itself stays as it is.
    pub fn get_section(&self, prefix: &str) -> (r: Dict<String>)
        requires
            self.wf(),
        ensures
            r.wf(),
            texts(r@) == section(self@, prefix@),
    {
        let dotted = String::from_str(prefix).concat(".");
        let skip = dotted.as_str().unicode_len();
        let mut out: Dict<String> = Dict::new();
        let n = self.strings.len();
        let mut i: usize = 0;
        proof {
            reveal_strlit(".");
            assert(dotted@ =~= prefix@ + seq!['.']);
            self.strings.lemma_upto_start();
            lemma_texts_empty();
            lemma_section_empty(prefix@);
        }
        while i < n
            invariant
                self.wf(),
                n == self.strings.keys().len(),
                i <= n,
                dotted@ == prefix@ + seq!['.'],
                skip == prefix@.len() + 1,
                out.wf(),
                texts(out@) == section(texts(self.strings.upto(i as int)), prefix@),
            decreases n - i,
        {
            let key = self.strings.key_at(i);
            let value = self.strings.value_at(i);
            proof {
                self.strings.lemma_upto_step(i as int);
                lemma_texts_insert(self.strings.upto(i as int), key@, *value);
                lemma_section_insert(texts(self.strings.upto(i as int)), prefix@, key@, value@);
            }
            if starts_with(key.as_str(), dotted.as_str()) {
                let len = key.as_str().unicode_len();
                let short = String::from_str(key.as_str().substring_char(skip, len));
                let text = value.clone();
                proof {
                    lemma_texts_insert(out@, short@, text);
                }
                out.insert(short, text);
            }
            i += 1;
        }
        proof {
            self.strings.lemma_upto_end();
        }
        out
    }
}

/// The texts of a language document: each code with the pairs of its catalog.
pub open spec fn document_view(doc: Seq<(String, Vec<(String, String)>)>) -> Seq<
    (Seq<char>, Seq<(Seq<char>, Seq<char>)>),
> {
    Seq::new(doc.len(), |i: int| (doc[i].0@, pairs_view(doc[i].1@)))
}

/// The catalogs that a document stands for: of two entries with one code the later counts.
pub open spec fn catalogs_of(doc: Seq<(Seq<char>, Seq<(Seq<char>, Seq<char>)>)>) -> Map<
    Seq<char>,
    Map<Seq<char>, Seq<char>>,
>
    decreases doc.len(),
{
    if doc.len() == 0 {
        Map::empty()
    } else {
        catalogs_of(doc.drop_last()).insert(doc.last().0, strings_of(doc.last().1))
    }
}

/// The entry at `i` is the last of `doc` with its code.
pub open spec fn last_of_code(doc: Seq<(Seq<char>, Seq<(Seq<char>, Seq<char>)>)>, i: int) -> bool {
    &&& 0 <= i < doc.len()
    &&& forall|j: int| i < j < doc.len() ==> doc[j].0 != doc[i].0
}

/// Every code of a document has a catalog, and a code's catalog is made of the
/// pairs of the last entry that the document has for it.
pub proof fn lemma_catalog_of_entry(doc: Seq<(Seq<char>, Seq<(Seq<char>, Seq<char>)>)>, i: int)
    requires
        0 <= i < doc.len(),
    ensures
        catalogs_of(doc).contains_key(doc[i].0),
        last_of_code(doc, i) ==> catalogs_of(doc)[doc[i].0] == strings_of(doc[i].1),
    decreases doc.len(),
{
    if i < doc.len() - 1 {
        lemma_catalog_of_entry(doc.drop_last(), i);
        if last_of_code(doc, i) {
            assert(last_of_code(doc.drop_last(), i)) by {
                assert forall|j: int| i < j < doc.drop_last().len() implies doc.drop_last()[j].0
                    != doc.drop_last()[i].0 by {
                    assert(doc[j].0 != doc[i].0);
                }
            }
            assert(doc[doc.len() - 1].0 != doc[i].0);
        }
    }
}

/// A code that no entry of a document has is given no catalog.
pub proof fn lemma_catalog_absent(
    doc: Seq<(Seq<char>, Seq<(Seq<char>, Seq<char>)>)>,
    code: Seq<char>,
)
    requires
        forall|j: int| 0 <= j < doc.len() ==> doc[j].0 != code,
    ensures
        !catalogs_of(doc).contains_key(code),
    decreases doc.len(),
{
    if doc.len() > 0 {
        assert forall|j: int| 0 <= j < doc.drop_last().len() implies doc.drop_last()[j].0
            != code by {
            assert(doc[j].0 != code);
        }
        lemma_catalog_absent(doc.drop_last(), code);
        assert(doc[doc.len() - 1].0 != code);
    }
}

/// The maps of a registry's catalogs.
pub open spec fn views(m: Map<Seq<char>, Arc<Language>>) -> Map<
    Seq<char>,
    Map<Seq<char>, Seq<char>>,
> {
    Map::new(|k: Seq<char>| m.contains_key(k), |k: Seq<char>| (*m[k])@)
}

/// Storing a catalog stores its map.
pub proof fn lemma_views_insert(m: Map<Seq<char>, Arc<Language>>, k: Seq<char>, v: Arc<Language>)
    ensures
        views(m.insert(k, v)) == views(m).insert(k, (*v)@),
{
    assert(views(m.insert(k, v)) =~= views(m).insert(k, (*v)@));
}

/// What loading the document `doc` gives: an error for an empty document, else a
/// registry of its catalogs whose fallback is the first code of the document.
pub open spec fn loaded(
    doc: Seq<(Seq<char>, Seq<(Seq<char>, Seq<char>)>)>,
    r: Result<LanguageManager, AppError>,
) -> bool {
    if doc.len() == 0 {
        r matches Err(AppError::Language(m)) && m@ == "No languages found in lang.json"@
    } else {
        r matches Ok(m) && m.wf() && m.default_code() == doc[0].0 && m.catalogs() == catalogs_of(
            doc,
        )
    }
}

/// The codes among `en`, `es`, `fr`, in that order, that `present` lacks.
pub open spec fn missing_codes(present: Set<Seq<char>>) -> Seq<Seq<char>> {
    absent(present, "en"@) + absent(present, "es"@) + absent(present, "fr"@)
}

/// `code` alone if `present` lacks it, nothing otherwise.
pub open spec fn absent(present: Set<Seq<char>>, code: Seq<char>) -> Seq<Seq<char>> {
    if present.contains(code) {
        Seq::empty()
    } else {
        seq![code]
    }
}

/// The texts of a list of strings.
pub open spec fn codes_view(codes: Seq<String>) -> Seq<Seq<char>> {
    Seq::new(codes.len(), |i: int| codes[i]@)
}

/// What `serde_json::from_str` makes of a language document: its language codes in
/// the order of the document, each with the pairs of its object, or nothing for a
/// text that is no JSON object of objects of strings.
pub uninterp spec fn parsed_document(content: Seq<char>) -> Option<
    Seq<(Seq<char>, Seq<(Seq<char>, Seq<char>)>)>,
>;

/// The error type of `serde_json`.
#[verifier::external_type_specification]
#[verifier::external_body]
pub struct ExJsonError(serde_json::Error);

/// Calls `serde_json::from_str` for a map of maps of strings that keeps the
/// order of the document. The parser's result depends on the text alone and is
/// known here only under the name `parsed_document`.
#[verifier::external_body]
fn parse_document(content: &str) -> (r: Result<
    Vec<(String, Vec<(String, String)>)>,
    serde_json::Error,
>)
    ensures
        r is Ok <==> parsed_document(content@) is Some,
        r matches Ok(doc) ==> document_view(doc@) == parsed_document(content@).unwrap(),
{
    let doc = serde_json::from_str::<
        indexmap::IndexMap<String, indexmap::IndexMap<String, String>>,
    >(content)?;
    Ok(doc.into_iter().map(|(code, strings)| (code, strings.into_iter().collect())).collect())
}

/// Calls `to_string` on a `serde_json::Error`; nothing is claimed of the text.
#[verifier::external_body]
fn error_text(e: &serde_json::Error) -> (r: String) {
    e.to_string()
}

/// Calls `Arc::clone`, which hands out another handle to the same catalog.
#[verifier::external_body]
fn share(catalog: &Arc<Language>) -> (r: Arc<Language>)
    ensures
        r == *catalog,
{
    Arc::clone(catalog)
}

/// All loaded languages, with the one that stands in for any other.
#[derive(Clone, Debug)]
pub struct LanguageManager {
    languages: Dict<Arc<Language>>,
    default_lang: String,
}

impl LanguageManager {
    /// Every catalog is well formed and the fallback language, the first that was
    /// loaded, is among them.
    pub closed spec fn wf(&self) -> bool {
        &&& self.languages.wf()
        &&& self.languages@.contains_key(self.default_lang@)
        &&& forall|k: Seq<char>| #[trigger]
            self.languages@.contains_key(k) ==> (*self.languages@[k]).wf()
        &&& self.languages.keys().len() > 0
        &&& self.languages.keys()[0]@ == self.default_lang@
    }

    /// The catalogs by language code.
    pub closed spec fn catalogs(&self) -> Map<Seq<char>, Map<Seq<char>, Seq<char>>> {
        views(self.languages@)
    }

    /// The code of the fallback language.
    pub closed spec fn default_code(&self) -> Seq<char> {
        self.default_lang@
    }

    /// The codes of the loaded languages, in the order in which they were loaded.
    pub closed spec fn codes(&self) -> Seq<Seq<char>> {
        codes_view(self.languages.keys())
    }

    /// The catalog that answers `code`: its own if loaded, the fallback's otherwise.
    pub open spec fn resolve(&self, code: Seq<char>) -> Map<Seq<char>, Seq<char>> {
        if self.catalogs().contains_key(code) {
            self.catalogs()[code]
        } else {
            self.catalogs()[self.default_code()]
        }
    }

    /// The fallback language is always loaded.
    pub proof fn lemma_default_loaded(&self)
        requires
            self.wf(),
        ensures
            self.catalogs().contains_key(self.default_code()),
            self.resolve(self.default_code()) == self.catalogs()[self.default_code()],
    {
    }

    /// The loaded codes are the codes of the catalogs, each once, the fallback first.
    pub proof fn lemma_codes(&self)
        requires
            self.wf(),
        ensures
            self.codes().no_duplicates(),
            forall|code: Seq<char>|
                self.catalogs().contains_key(code) <==> self.codes().contains(code),
            self.codes().len() == self.catalogs().dom().len(),
            self.codes().len() > 0 && self.codes()[0] == self.default_code(),
    {
        self.languages.lemma_entries();
        let codes = self.codes();
        assert forall|code: Seq<char>| self.catalogs().contains_key(code) implies codes.contains(
            code,
        ) by {
            let p = crate::dict::position(self.languages.keys(), code);
            assert(codes[p] == code);
        }
        assert forall|code: Seq<char>| codes.contains(code) implies self.catalogs().contains_key(
            code,
        ) by {
            let p = choose|p: int| 0 <= p < codes.len() && codes[p] == code;
            assert(self.languages@.contains_key(self.languages.keys()[p]@));
        }
        assert(codes.to_set() =~= self.catalogs().dom());
        codes.unique_seq_to_set();
    }

    /// A loaded code resolves to its own catalog.
    pub proof fn lemma_resolve_loaded(&self, code: Seq<char>)
        requires
            self.wf(),
            self.catalogs().contains_key(code),
        ensures
            self.resolve(code) == self.catalogs()[code],
    {
    }

    /// A code that is not loaded resolves to what the fallback code resolves to.
    pub proof fn lemma_resolve_fallback(&self, code: Seq<char>)
        requires
            self.wf(),
            !self.catalogs().contains_key(code),
        ensures
            self.resolve(code) == self.resolve(self.default_code()),
    {
    }

    /// In a registry loaded from `doc`, the code of an entry resolves to the catalog
    /// of the last entry with that code.
    pub proof fn lemma_resolve_entry(
        &self,
        doc: Seq<(Seq<char>, Seq<(Seq<char>, Seq<char>)>)>,
        i: int,
    )
        requires
            self.wf(),
            self.catalogs() == catalogs_of(doc),
            last_of_code(doc, i),
        ensures
            self.resolve(doc[i].0) == strings_of(doc[i].1),
    {
        lemma_catalog_of_entry(doc, i);
    }

    /// In a registry loaded from `doc`, a code that `doc` lacks resolves to what the
    /// fallback code resolves to.
    pub proof fn lemma_resolve_absent(
        &self,
        doc: Seq<(Seq<char>, Seq<(Seq<char>, Seq<char>)>)>,
        code: Seq<char>,
    )
        requires
            self.wf(),
            self.catalogs() == catalogs_of(doc),
            forall|j: int| 0 <= j < doc.len() ==> doc[j].0 != code,
        ensures
            self.resolve(code) == self.resolve(self.default_code()),
    {
        lemma_catalog_absent(doc, code);
    }

    /// The registry of the catalogs in `doc`; its fallback is the first code of `doc`.
    pub fn from_entries(doc: &Vec<(String, Vec<(String, String)>)>) -> (r: Result<
        LanguageManager,
        AppError,
    >)
        ensures
            loaded(document_view(doc@), r),
    {
        if doc.len() == 0 {
            return Err(AppError::Language(String::from_str("No languages found in lang.json")));
        }
        let default_lang = doc[0].0.clone();
        let mut languages: Dict<Arc<Language>> = Dict::new();
        let ghost all = document_view(doc@);
        let mut i: usize = 0;
        proof {
            assert(views(languages@) =~= Map::empty());
            assert(all.subrange(0, 0) =~= Seq::empty());
        }
        while i < doc.len()
            invariant
                all == document_view(doc@),
                i <= doc@.len(),
                languages.wf(),
                views(languages@) == catalogs_of(all.subrange(0, i as int)),
                forall|k: Seq<char>| #[trigger]
                    languages@.contains_key(k) ==> (*languages@[k]).wf(),
                i == 0 ==> languages.keys().len() == 0,
                i > 0 ==> languages.keys().len() > 0 && languages.keys()[0]@ == doc@[0].0@
                    && languages@.contains_key(doc@[0].0@),
            decreases doc@.len() - i,
        {
            let code = doc[i].0.clone();
            let catalog = Arc::new(Language::from_pairs(&doc[i].1));
            proof {
                lemma_views_insert(languages@, code@, catalog);
                assert(all.subrange(0, i + 1).drop_last() =~= all.subrange(0, i as int));
                assert(all.subrange(0, i + 1).last() == (code@, pairs_view(doc@[i as int].1@)));
            }
            languages.insert(code, catalog);
            i += 1;
        }
        assert(all.subrange(0, i as int) =~= all);
        Ok(LanguageManager { languages, default_lang })
    }

    /// Loads the registry from the text of a language document: a JSON object that
    /// maps each language code to an object of keys and translated strings.
    pub fn new(content: &str) -> (r: Result<LanguageManager, AppError>)
        ensures
            match parsed_document(content@) {
                Some(doc) => loaded(doc, r),
                None => r matches Err(AppError::Language(m)) && is_prefix(
                    "Failed to parse lang.json: "@,
                    m@,
                ),
            },
    {
        match parse_document(content) {
            Ok(doc) => LanguageManager::from_entries(&doc),
            Err(e) => {
                let cause = error_text(&e);
                let message = String::from_str("Failed to parse lang.json: ").concat(
                    cause.as_str(),
                );
                assert(message@.subrange(0, "Failed to parse lang.json: "@.len() as int)
                    =~= "Failed to parse lang.json: "@);
                Err(AppError::Language(message))
            },
        }
    }

    /// The catalog for `lang`, or the fallback catalog where `lang` is not loaded.
    pub fn get_language(&self, lang: &str) -> (r: Option<Arc<Language>>)
        requires
            self.wf(),
        ensures
            r matches Some(c) && (*c).wf() && (*c)@ == self.resolve(lang@),
    {
        match self.languages.get(lang) {
            Some(c) => Some(share(c)),
            None => match self.languages.get(self.default_lang.as_str()) {
                Some(c) => Some(share(c)),
                None => None,
            },
        }
    }

    /// The catalog of the fallback language.
    pub fn get_default_language(&self) -> (r: Arc<Language>)
        requires
            self.wf(),
        ensures
            (*r).wf(),
            (*r)@ == self.catalogs()[self.default_code()],
    {
        proof {
            self.languages.lemma_entries();
        }
        share(self.languages.value_at(0))
    }

    /// The codes of all loaded languages, each once, the fallback first.
    pub fn get_available_languages(&self) -> (r: Vec<String>)
        requires
            self.wf(),
        ensures
            codes_view(r@) == self.codes(),
            forall|code: Seq<char>|
                self.catalogs().contains_key(code) <==> codes_view(r@).contains(code),
            codes_view(r@).no_duplicates(),
            r@.len() == self.catalogs().dom().len(),
            r@.len() > 0 && r@[0]@ == self.default_code(),
    {
        let n = self.languages.len();
        let mut out: Vec<String> = Vec::new();
        let mut i: usize = 0;
        while i < n
            invariant
                self.wf(),
                n == self.languages.keys().len(),
                i <= n,
                out@ == self.languages.keys().subrange(0, i as int),
            decreases n - i,
        {
            out.push(self.languages.key_at(i).clone());
            assert(out@ =~= self.languages.keys().subrange(0, i + 1));
            i += 1;
        }
        proof {
            assert(out@ =~= self.languages.keys());
            self.lemma_codes();
        }
        out
    }

    /// The served languages that the registry lacks: each is worth a warning, none
    /// stops the load.
    pub fn missing_supported_languages(&self) -> (r: Vec<String>)
        requires
            self.wf(),
        ensures
            codes_view(r@) == missing_codes(self.catalogs().dom()),
    {
        let mut out: Vec<String> = Vec::new();
        if self.languages.get("en").is_none() {
            out.push(String::from_str("en"));
        }
        if self.languages.get("es").is_none() {
            out.push(String::from_str("es"));
        }
        if self.languages.get("fr").is_none() {
            out.push(String::from_str("fr"));
        }
        assert(codes_view(out@) =~= missing_codes(self.catalogs().dom()));
        out
    }
}

} // verus!
