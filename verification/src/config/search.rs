//! The `search` section of the site configuration and its validation.

use vstd::prelude::*;

use crate::text::{
    chars_of, contains_seq, extend_str, has_whitespace, has_ws, lower_chars, lower_seq, string_of,
    string_views, trim, trim_chars, views,
};

verus! {

/// One language the search index knows about.
#[derive(Debug, Clone)]
pub struct SearchLanguageConfig {
    pub id: String,
    pub name: Option<String>,
    pub stopwords: Vec<String>,
}

/// Where the search index is written and how it treats languages.
#[derive(Debug, Clone)]
pub struct SearchConfig {
    pub asset_path: String,
    pub default_language: String,
    pub languages: Vec<SearchLanguageConfig>,
    pub payload_fields: Vec<String>,
}

/// The English stopwords the default configuration ships with.
pub open spec fn english_stopwords() -> Seq<Seq<char>> {
    seq![
        "a"@, "an"@, "and"@, "are"@, "as"@, "at"@, "be"@, "but"@, "by"@, "for"@, "from"@,
        "has"@, "have"@, "in"@, "is"@, "it"@, "of"@, "on"@, "or"@, "that"@, "the"@, "to"@,
        "was"@, "were"@, "will"@, "with"@, "you"@, "your"@, "about"@, "into"@, "more"@,
        "can"@, "do"@, "just"@, "like"@, "not"@, "only"@, "out"@, "some"@, "than"@, "then"@,
        "there"@, "this"@, "up"@, "what"@, "when"@, "who"@, "why"@,
    ]
}

/// The Greek stopwords the default configuration ships with.
pub open spec fn greek_stopwords() -> Seq<Seq<char>> {
    seq![
        "και"@, "να"@, "σε"@, "το"@, "η"@, "ο"@, "οι"@, "τα"@, "για"@, "με"@, "που"@, "ως"@,
        "από"@, "αυτο"@, "αυτά"@, "αυτή"@, "αυτό"@, "αυτές"@, "αυτοί"@, "αυτών"@, "είναι"@,
        "στο"@, "στη"@, "στην"@, "στον"@, "τους"@, "τις"@, "των"@, "μια"@, "μιας"@, "μιαν"@,
        "μου"@, "σου"@, "του"@, "της"@, "μας"@, "σας"@, "αν"@, "θα"@, "δε"@, "δεν"@, "πως"@,
        "ότι"@, "όπως"@, "όταν"@, "όσο"@,
    ]
}

fn words(list: &[&str]) -> (r: Vec<String>)
    ensures
        string_views(r@) == list@.map_values(|w: &str| w@),
{
    let mut r: Vec<String> = Vec::new();
    let n = list.len();
    for i in 0..n
        invariant
            n == list@.len(),
            string_views(r@) == list@.take(i as int).map_values(|w: &str| w@),
    {
        r.push(list[i].to_owned());
        assert(list@.take(i + 1).map_values(|w: &str| w@) =~= list@.take(i as int).map_values(
            |w: &str| w@,
        ).push(list@[i as int]@));
        assert(string_views(r@) =~= string_views(r@.drop_last()).push(r@.last()@));
    }
    assert(list@.take(n as int) =~= list@);
    r
}

/// The English stopwords, as owned strings.
pub fn default_english_stopwords() -> (r: Vec<String>)
    ensures
        string_views(r@) == english_stopwords(),
{
    let list: [&str; 48] = [
        "a", "an", "and", "are", "as", "at", "be", "but", "by", "for", "from", "has", "have", "in",
        "is", "it", "of", "on", "or", "that", "the", "to", "was", "were", "will", "with", "you",
        "your", "about", "into", "more", "can", "do", "just", "like", "not", "only", "out", "some",
        "than", "then", "there", "this", "up", "what", "when", "who", "why",
    ];
    let r = words(list.as_slice());
    proof {
        reveal_strlit("a");
    }
    assert(list@.map_values(|w: &str| w@) =~= english_stopwords());
    r
}

/// The Greek stopwords, as owned strings.
pub fn default_greek_stopwords() -> (r: Vec<String>)
    ensures
        string_views(r@) == greek_stopwords(),
{
    let list: [&str; 46] = [
        "και", "να", "σε", "το", "η", "ο", "οι", "τα", "για", "με", "που", "ως", "από", "αυτο",
        "αυτά", "αυτή", "αυτό", "αυτές", "αυτοί", "αυτών", "είναι", "στο", "στη", "στην", "στον",
        "τους", "τις", "των", "μια", "μιας", "μιαν", "μου", "σου", "του", "της", "μας", "σας",
        "αν", "θα", "δε", "δεν", "πως", "ότι", "όπως", "όταν", "όσο",
    ];
    let r = words(list.as_slice());
    assert(list@.map_values(|w: &str| w@) =~= greek_stopwords());
    r
}

/// English and Greek, with their stopwords.
pub fn default_search_languages() -> (r: Vec<SearchLanguageConfig>)
    ensures
        r@.len() == 2,
        r@[0].id@ == "en"@,
        r@[0].name matches Some(n) && n@ == "English"@,
        string_views(r@[0].stopwords@) == english_stopwords(),
        r@[1].id@ == "el"@,
        r@[1].name matches Some(n) && n@ == "Greek"@,
        string_views(r@[1].stopwords@) == greek_stopwords(),
{
    let mut r: Vec<SearchLanguageConfig> = Vec::new();
    r.push(
        SearchLanguageConfig {
            id: "en".to_owned(),
            name: Some("English".to_owned()),
            stopwords: default_english_stopwords(),
        },
    );
    r.push(
        SearchLanguageConfig {
            id: "el".to_owned(),
            name: Some("Greek".to_owned()),
            stopwords: default_greek_stopwords(),
        },
    );
    r
}

impl Default for SearchConfig {
    fn default() -> (r: Self)
        ensures
            r.asset_path@ == "assets/search/search-index.json"@,
            r.default_language@ == "en"@,
            r.languages@.len() == 2,
            r.languages@[0].id@ == "en"@,
            r.languages@[0].name matches Some(n) && n@ == "English"@,
            string_views(r.languages@[0].stopwords@) == english_stopwords(),
            r.languages@[1].id@ == "el"@,
            r.languages@[1].name matches Some(n) && n@ == "Greek"@,
            string_views(r.languages@[1].stopwords@) == greek_stopwords(),
            r.payload_fields@.len() == 0,
    {
        SearchConfig {
            asset_path: "assets/search/search-index.json".to_owned(),
            default_language: "en".to_owned(),
            languages: default_search_languages(),
            payload_fields: Vec::new(),
        }
    }
}

/// What is wrong with a search configuration.
#[derive(Clone, Copy, Debug, PartialEq, Eq, Structural)]
pub enum SearchConfigIssue {
    EmptyAssetPath,
    NoLanguages,
    EmptyLanguageId,
    DuplicateLanguage,
    EmptyDefaultLanguage,
    UnknownDefaultLanguage,
    EmptyPayloadField,
    PaddedPayloadField,
    InnerWhitespacePayloadField,
    DuplicatePayloadField,
}

/// What is wrong with a search configuration, and the configured value the
/// message quotes (empty where the message quotes none).
#[derive(Clone, Debug)]
pub struct SearchProblem {
    pub issue: SearchConfigIssue,
    pub value: String,
}

/// A rejected search configuration: its problem and the file it came from.
#[derive(Clone, Debug)]
pub struct SearchConfigError {
    pub issue: SearchConfigIssue,
    pub value: String,
    pub origin: String,
}

/// How a language id is compared with the others: trimmed, ASCII-lowercased.
pub open spec fn language_key(id: Seq<char>) -> Seq<char> {
    lower_seq(trim(id))
}

pub open spec fn language_ids(c: SearchConfig) -> Seq<Seq<char>> {
    c.languages@.map_values(|l: SearchLanguageConfig| l.id@)
}

pub open spec fn language_keys(ids: Seq<Seq<char>>) -> Seq<Seq<char>> {
    ids.map_values(|id: Seq<char>| language_key(id))
}

/// The first problem among the language ids from position `i` on, given
/// that the ones before it passed: an id that is blank, or whose key an
/// earlier id already has.
pub open spec fn language_issue(ids: Seq<Seq<char>>, i: nat) -> Option<(SearchConfigIssue, Seq<char>)>
    decreases ids.len() - i,
{
    if i >= ids.len() {
        None
    } else if language_keys(ids)[i as int].len() == 0 {
        Some((SearchConfigIssue::EmptyLanguageId, Seq::<char>::empty()))
    } else if language_keys(ids).take(i as int).contains(language_keys(ids)[i as int]) {
        Some((SearchConfigIssue::DuplicateLanguage, ids[i as int]))
    } else {
        language_issue(ids, i + 1)
    }
}

/// The first problem among the payload fields from position `i` on, given
/// that the ones before it passed: a blank field, one with surrounding or
/// inner whitespace, or one listed before.
pub open spec fn payload_issue(fields: Seq<Seq<char>>, i: nat) -> Option<(SearchConfigIssue, Seq<char>)>
    decreases fields.len() - i,
{
    if i >= fields.len() {
        None
    } else {
        let f = fields[i as int];
        if trim(f).len() == 0 {
            Some((SearchConfigIssue::EmptyPayloadField, Seq::<char>::empty()))
        } else if trim(f) != f {
            Some((SearchConfigIssue::PaddedPayloadField, f))
        } else if has_ws(f) {
            Some((SearchConfigIssue::InnerWhitespacePayloadField, f))
        } else if fields.take(i as int).contains(f) {
            Some((SearchConfigIssue::DuplicatePayloadField, f))
        } else {
            payload_issue(fields, i + 1)
        }
    }
}

/// The first problem of a search configuration, checked in this order: the
/// asset path, the language list, each language id, the default language,
/// each payload field.
pub open spec fn search_config_issue(c: SearchConfig) -> Option<(SearchConfigIssue, Seq<char>)> {
    let ids = language_ids(c);
    let default_key = language_key(c.default_language@);
    if trim(c.asset_path@).len() == 0 {
        Some((SearchConfigIssue::EmptyAssetPath, Seq::<char>::empty()))
    } else if ids.len() == 0 {
        Some((SearchConfigIssue::NoLanguages, Seq::<char>::empty()))
    } else if language_issue(ids, 0) is Some {
        language_issue(ids, 0)
    } else if default_key.len() == 0 {
        Some((SearchConfigIssue::EmptyDefaultLanguage, Seq::<char>::empty()))
    } else if !language_keys(ids).contains(default_key) {
        Some((SearchConfigIssue::UnknownDefaultLanguage, c.default_language@))
    } else {
        payload_issue(string_views(c.payload_fields@), 0)
    }
}

fn key_of(id: &String) -> (r: Vec<char>)
    ensures
        r@ == language_key(id@),
{
    lower_chars(&trim_chars(&chars_of(id.as_str())))
}

fn issue_with(issue: SearchConfigIssue, value: &String) -> (r: SearchProblem)
    ensures
        r.issue == issue,
        r.value@ == value@,
{
    SearchProblem { issue, value: value.clone() }
}

fn bare_issue(issue: SearchConfigIssue) -> (r: SearchProblem)
    ensures
        r.issue == issue,
        r.value@ == Seq::<char>::empty(),
{
    SearchProblem { issue, value: String::new() }
}

fn check_languages(ids: &Vec<SearchLanguageConfig>) -> (r: Result<Vec<Vec<char>>, SearchProblem>)
    ensures
        match r {
            Ok(keys) => language_issue(ids@.map_values(|l: SearchLanguageConfig| l.id@), 0) is None
                && views(keys@) == language_keys(ids@.map_values(|l: SearchLanguageConfig| l.id@)),
            Err(e) => language_issue(ids@.map_values(|l: SearchLanguageConfig| l.id@), 0) == Some(
                (e.issue, e.value@),
            ),
        },
{
    let ghost all = ids@.map_values(|l: SearchLanguageConfig| l.id@);
    let mut seen: Vec<Vec<char>> = Vec::new();
    let n = ids.len();
    for i in 0..n
        invariant
            n == ids@.len() == all.len(),
            all == ids@.map_values(|l: SearchLanguageConfig| l.id@),
            views(seen@) == language_keys(all).take(i as int),
            language_issue(all, 0) == language_issue(all, i as nat),
    {
        let key = key_of(&ids[i].id);
        assert(key@ == language_keys(all)[i as int]);
        if key.len() == 0 {
            return Err(bare_issue(SearchConfigIssue::EmptyLanguageId));
        }
        if contains_seq(&seen, &key) {
            return Err(issue_with(SearchConfigIssue::DuplicateLanguage, &ids[i].id));
        }
        let ghost before = seen@;
        seen.push(key);
        assert(views(seen@) =~= views(before).push(key@));
        assert(language_keys(all).take(i + 1) =~= language_keys(all).take(i as int).push(key@));
    }
    assert(language_keys(all).take(n as int) =~= language_keys(all));
    Ok(seen)
}

fn check_payload_fields(fields: &Vec<String>) -> (r: Result<(), SearchProblem>)
    ensures
        match r {
            Ok(()) => payload_issue(string_views(fields@), 0) is None,
            Err(e) => payload_issue(string_views(fields@), 0) == Some((e.issue, e.value@)),
        },
{
    let ghost all = string_views(fields@);
    let mut seen: Vec<Vec<char>> = Vec::new();
    let n = fields.len();
    for i in 0..n
        invariant
            n == fields@.len() == all.len(),
            all == string_views(fields@),
            views(seen@) == all.take(i as int),
            payload_issue(all, 0) == payload_issue(all, i as nat),
    {
        let field = chars_of(fields[i].as_str());
        assert(field@ == all[i as int]);
        let trimmed = trim_chars(&field);
        if trimmed.len() == 0 {
            return Err(bare_issue(SearchConfigIssue::EmptyPayloadField));
        }
        if trimmed.len() != field.len() {
            return Err(issue_with(SearchConfigIssue::PaddedPayloadField, &fields[i]));
        }
        assert(trimmed@ =~= field@) by {
            crate::text::lemma_trim_same_len(field@);
        }
        if has_whitespace(&field) {
            return Err(issue_with(SearchConfigIssue::InnerWhitespacePayloadField, &fields[i]));
        }
        if contains_seq(&seen, &field) {
            return Err(issue_with(SearchConfigIssue::DuplicatePayloadField, &fields[i]));
        }
        let ghost before = seen@;
        seen.push(field);
        assert(views(seen@) =~= views(before).push(field@));
        assert(all.take(i + 1) =~= all.take(i as int).push(field@));
    }
    Ok(())
}

fn search_problem(config: &SearchConfig) -> (r: Result<(), SearchProblem>)
    ensures
        match r {
            Ok(()) => search_config_issue(*config) is None,
            Err(e) => search_config_issue(*config) == Some((e.issue, e.value@)),
        },
{
    let asset = trim_chars(&chars_of(config.asset_path.as_str()));
    if asset.len() == 0 {
        return Err(bare_issue(SearchConfigIssue::EmptyAssetPath));
    }
    if config.languages.len() == 0 {
        return Err(bare_issue(SearchConfigIssue::NoLanguages));
    }
    let keys = match check_languages(&config.languages) {
        Ok(keys) => keys,
        Err(e) => return Err(e),
    };
    let default_key = key_of(&config.default_language);
    if default_key.len() == 0 {
        return Err(bare_issue(SearchConfigIssue::EmptyDefaultLanguage));
    }
    if !contains_seq(&keys, &default_key) {
        return Err(issue_with(SearchConfigIssue::UnknownDefaultLanguage, &config.default_language));
    }
    check_payload_fields(&config.payload_fields)
}

/// Checks a search configuration read from `origin` and returns its first
/// problem.
///
/// The asset path must not be blank; there must be at least one language;
/// language ids must be non-blank and distinct once trimmed and
/// ASCII-lowercased; the default language must be one of them; payload
/// fields must be non-blank, free of whitespace and distinct.
pub fn validate_search_config(config: &SearchConfig, origin: &str) -> (r: Result<(), SearchConfigError>)
    ensures
        match r {
            Ok(()) => search_config_issue(*config) is None,
            Err(e) => search_config_issue(*config) == Some((e.issue, e.value@)) && e.origin@ == origin@,
        },
{
    match search_problem(config) {
        Ok(()) => Ok(()),
        Err(p) => Err(SearchConfigError { issue: p.issue, value: p.value, origin: origin.to_owned() }),
    }
}

/// The message shown for a rejected search configuration read from `origin`.
pub open spec fn search_error_message(issue: SearchConfigIssue, value: Seq<char>, origin: Seq<char>) -> Seq<char> {
    origin + ": "@ + match issue {
        SearchConfigIssue::EmptyAssetPath => "search.asset_path must not be empty"@,
        SearchConfigIssue::NoLanguages => "search.languages must define at least one language"@,
        SearchConfigIssue::EmptyLanguageId => "search language ids must not be empty"@,
        SearchConfigIssue::DuplicateLanguage => "duplicate language id '"@ + value
            + "' in search.languages"@,
        SearchConfigIssue::EmptyDefaultLanguage => "search.default_language must not be empty"@,
        SearchConfigIssue::UnknownDefaultLanguage => "search.default_language '"@ + value
            + "' not found in search.languages"@,
        SearchConfigIssue::EmptyPayloadField => "search.payload_fields entries must not be empty"@,
        SearchConfigIssue::PaddedPayloadField => "search.payload_fields '"@ + value
            + "' must not contain leading or trailing whitespace"@,
        SearchConfigIssue::InnerWhitespacePayloadField => "search.payload_fields '"@ + value
            + "' must not contain internal whitespace"@,
        SearchConfigIssue::DuplicatePayloadField => "duplicate entry '"@ + value
            + "' in search.payload_fields"@,
    }
}

impl SearchConfigError {
    /// The error's message, naming the configuration file it came from.
    pub fn message(&self) -> (r: String)
        ensures
            r@ == search_error_message(self.issue, self.value@, self.origin@),
    {
        let mut out = chars_of(self.origin.as_str());
        extend_str(&mut out, ": ");
        let v = self.value.as_str();
        match self.issue {
            SearchConfigIssue::EmptyAssetPath => extend_str(
                &mut out,
                "search.asset_path must not be empty",
            ),
            SearchConfigIssue::NoLanguages => extend_str(
                &mut out,
                "search.languages must define at least one language",
            ),
            SearchConfigIssue::EmptyLanguageId => extend_str(
                &mut out,
                "search language ids must not be empty",
            ),
            SearchConfigIssue::DuplicateLanguage => {
                extend_str(&mut out, "duplicate language id '");
                extend_str(&mut out, v);
                extend_str(&mut out, "' in search.languages");
            },
            SearchConfigIssue::EmptyDefaultLanguage => extend_str(
                &mut out,
                "search.default_language must not be empty",
            ),
            SearchConfigIssue::UnknownDefaultLanguage => {
                extend_str(&mut out, "search.default_language '");
                extend_str(&mut out, v);
                extend_str(&mut out, "' not found in search.languages");
            },
            SearchConfigIssue::EmptyPayloadField => extend_str(
                &mut out,
                "search.payload_fields entries must not be empty",
            ),
            SearchConfigIssue::PaddedPayloadField => {
                extend_str(&mut out, "search.payload_fields '");
                extend_str(&mut out, v);
                extend_str(&mut out, "' must not contain leading or trailing whitespace");
            },
            SearchConfigIssue::InnerWhitespacePayloadField => {
                extend_str(&mut out, "search.payload_fields '");
                extend_str(&mut out, v);
                extend_str(&mut out, "' must not contain internal whitespace");
            },
            SearchConfigIssue::DuplicatePayloadField => {
                extend_str(&mut out, "duplicate entry '");
                extend_str(&mut out, v);
                extend_str(&mut out, "' in search.payload_fields");
            },
        }
        string_of(&out)
    }
}

} // verus!
