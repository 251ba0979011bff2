//! The client-side search index: language ids, stopwords, facets and the
//! documents it lists.

use vstd::prelude::*;

use crate::config::search::{SearchConfig, SearchLanguageConfig};
use crate::sorted::{insert_sorted, insert_key, strictly_ascending, strictly_sorted, to_strings};
use crate::text::{
    chars_eq, chars_of, copy_chars, lower_chars, lower_seq, replace_char, replace_char_chars,
    split_chars, split_on, string_of, string_views, strip_leading, strip_leading_chars,
    to_lowercase, trim, trim_chars, unicode_lowercase, views, opt_view,
};
use crate::utils::{join_path, join_path_spec};
use crate::config::date_format::{format_description_items, parse_format_description};
use crate::post::datetime::{described_date_v1, format_described_v1, format_rfc3339, rfc3339_text, DateTime};

verus! {

/// The serialized search index, its digest and how many documents it holds.
pub struct SearchIndexArtifact {
    pub bytes: Vec<u8>,
    pub digest: String,
    pub document_count: usize,
}

/// Packs a serialized search index with its BLAKE3 digest in hexadecimal.
pub fn search_index_artifact(bytes: Vec<u8>, document_count: usize) -> (r: SearchIndexArtifact)
    ensures
        r.bytes@ == bytes@,
        r.digest@ == crate::hash::hex_spec(crate::hash::spec_blake3(bytes@)),
        r.document_count == document_count,
{
    let digest = crate::hash::blake3_hash(bytes.as_slice());
    let hex = crate::hash::to_hex(&digest);
    SearchIndexArtifact { bytes, digest: string_of(&hex), document_count }
}

/// Where the search index is written: `asset_path` under the output root,
/// with its leading slashes dropped.
pub fn resolve_asset_path(html_root: &str, asset_path: &str) -> (r: String)
    ensures
        r@ == join_path_spec(html_root@, strip_leading(asset_path@, '/')),
{
    let trimmed = strip_leading_chars(&chars_of(asset_path), '/');
    string_of(&join_path(&chars_of(html_root), &trimmed))
}

/// A language id as it is compared: trimmed, `_` turned into `-`,
/// ASCII-lowercased.
pub open spec fn sanitize_spec(value: Seq<char>) -> Seq<char> {
    lower_seq(replace_char(trim(value), '_', '-'))
}

fn sanitize_chars(value: &Vec<char>) -> (r: Vec<char>)
    ensures
        r@ == sanitize_spec(value@),
{
    lower_chars(&replace_char_chars(&trim_chars(value), '_', '-'))
}

/// Normalizes a language id: trimmed, `_` turned into `-`, ASCII-lowercased.
pub fn sanitize_language(value: &str) -> (r: String)
    ensures
        r@ == sanitize_spec(value@),
{
    string_of(&sanitize_chars(&chars_of(value)))
}

/// The number of bytes `c` takes in UTF-8.
pub open spec fn utf8_width(c: char) -> nat {
    if (c as u32) < 0x80 {
        1
    } else if (c as u32) < 0x800 {
        2
    } else if (c as u32) < 0x10000 {
        3
    } else {
        4
    }
}

/// The number of bytes `s` takes in UTF-8 (`str::len`).
pub open spec fn utf8_len(s: Seq<char>) -> nat
    decreases s.len(),
{
    if s.len() == 0 {
        0
    } else {
        utf8_len(s.drop_last()) + utf8_width(s.last())
    }
}

pub(crate) proof fn lemma_utf8_len_prefix(s: Seq<char>, i: int)
    requires
        0 <= i <= s.len(),
    ensures
        utf8_len(s.take(i)) <= utf8_len(s),
    decreases s.len() - i,
{
    if i < s.len() {
        lemma_utf8_len_prefix(s, i + 1);
        assert(s.take(i + 1).drop_last() =~= s.take(i));
    } else {
        assert(s.take(i) =~= s);
    }
}

/// The UTF-8 length of `v`, or 4 where it is longer than that.
pub fn utf8_len_capped(v: &Vec<char>) -> (r: usize)
    ensures
        r == (if utf8_len(v@) > 3 { 4 } else { utf8_len(v@) }),
{
    let mut total: usize = 0;
    let n = v.len();
    for i in 0..n
        invariant
            n == v@.len(),
            total == utf8_len(v@.take(i as int)),
            total <= 3,
    {
        let c = v[i];
        let w: usize = if (c as u32) < 0x80 {
            1
        } else if (c as u32) < 0x800 {
            2
        } else if (c as u32) < 0x10000 {
            3
        } else {
            4
        };
        assert(v@.take(i + 1).drop_last() =~= v@.take(i as int));
        total = total + w;
        if total > 3 {
            proof {
                lemma_utf8_len_prefix(v@, i + 1);
            }
            return 4;
        }
    }
    assert(v@.take(n as int) =~= v@);
    total
}

/// The ISO 639-1 code (where the language has one) and the ISO 639-3 code
/// of the language that `isolang::Language::from_639_1` finds for `code`.
pub uninterp spec fn iso_639_1_lookup(code: Seq<char>) -> Option<(Option<Seq<char>>, Seq<char>)>;

/// The same for `isolang::Language::from_639_3`.
pub uninterp spec fn iso_639_3_lookup(code: Seq<char>) -> Option<(Option<Seq<char>>, Seq<char>)>;

/// The codes of a found language, as text.
pub open spec fn codes_view(r: Option<(Option<String>, String)>) -> Option<(Option<Seq<char>>, Seq<char>)> {
    match r {
        Some((c1, c3)) => Some(
            (
                match c1 {
                    Some(c) => Some(c@),
                    None => None,
                },
                c3@,
            ),
        ),
        None => None,
    }
}

/// Calls `isolang::Language::from_639_1` and reads the language found back
/// as its codes (`to_639_1`, `to_639_3`). Claims only that the answer is a
/// function of `code`.
#[verifier::external_body]
fn language_from_639_1(code: &str) -> (r: Option<(Option<String>, String)>)
    ensures
        codes_view(r) == iso_639_1_lookup(code@),
{
    match isolang::Language::from_639_1(code) {
        Some(language) => {
            let part1 = match language.to_639_1() {
                Some(c) => Some(c.to_owned()),
                None => None,
            };
            Some((part1, language.to_639_3().to_owned()))
        },
        None => None,
    }
}

/// Calls `isolang::Language::from_639_3` and reads the language found back
/// as its codes (`to_639_1`, `to_639_3`). Claims only that the answer is a
/// function of `code`.
#[verifier::external_body]
fn language_from_639_3(code: &str) -> (r: Option<(Option<String>, String)>)
    ensures
        codes_view(r) == iso_639_3_lookup(code@),
{
    match isolang::Language::from_639_3(code) {
        Some(language) => {
            let part1 = match language.to_639_1() {
                Some(c) => Some(c.to_owned()),
                None => None,
            };
            Some((part1, language.to_639_3().to_owned()))
        },
        None => None,
    }
}

/// The part of a language tag before its first `-`.
pub open spec fn primary_subtag(id: Seq<char>) -> Seq<char> {
    split_on(id, '-')[0]
}

/// The other ids a language tag is known by: the lowercased ISO 639-1 and
/// ISO 639-3 codes of the language its primary subtag names (a two-byte
/// subtag is read as ISO 639-1, a three-byte one as ISO 639-3, counting
/// bytes in UTF-8).
pub open spec fn aliases_spec(id: Seq<char>) -> Seq<Seq<char>> {
    let p = primary_subtag(id);
    let found = if utf8_len(p) == 2 {
        iso_639_1_lookup(p)
    } else if utf8_len(p) == 3 {
        iso_639_3_lookup(p)
    } else {
        None
    };
    match found {
        Some((c1, c3)) => match c1 {
            Some(c) => seq![unicode_lowercase(c), unicode_lowercase(c3)],
            None => seq![unicode_lowercase(c3)],
        },
        None => Seq::<Seq<char>>::empty(),
    }
}

fn primary_of(id: &Vec<char>) -> (r: Vec<char>)
    ensures
        r@ == primary_subtag(id@),
{
    let parts = split_chars(id, '-');
    proof {
        crate::text::lemma_split_on_nonempty(id@, '-');
    }
    assert(views(parts@)[0] == parts@[0]@);
    copy_chars(&parts[0])
}

/// The other ids a language tag is known by.
fn language_aliases(id: &Vec<char>) -> (r: Vec<Vec<char>>)
    ensures
        views(r@) == aliases_spec(id@),
{
    let primary = primary_of(id);
    let width = utf8_len_capped(&primary);
    let p = string_of(&primary);
    let found = if width == 2 {
        language_from_639_1(p.as_str())
    } else if width == 3 {
        language_from_639_3(p.as_str())
    } else {
        None
    };
    let mut r: Vec<Vec<char>> = Vec::new();
    match found {
        Some((c1, c3)) => {
            match c1 {
                Some(c) => {
                    r.push(chars_of(to_lowercase(c.as_str()).as_str()));
                },
                None => {},
            }
            r.push(chars_of(to_lowercase(c3.as_str()).as_str()));
        },
        None => {},
    }
    assert(views(r@) =~= aliases_spec(id@));
    r
}

/// The map a list of key/value pairs describes, later pairs winning.
pub open spec fn entries_map(ks: Seq<Seq<char>>, vs: Seq<Seq<char>>) -> Map<Seq<char>, Seq<char>>
    decreases ks.len(),
{
    if ks.len() == 0 || vs.len() == 0 {
        Map::empty()
    } else {
        entries_map(ks.drop_last(), vs.drop_last()).insert(ks.last(), vs.last())
    }
}

proof fn lemma_entries_absent(ks: Seq<Seq<char>>, vs: Seq<Seq<char>>, k: Seq<char>)
    requires
        ks.len() == vs.len(),
        !ks.contains(k),
    ensures
        !entries_map(ks, vs).contains_key(k),
    decreases ks.len(),
{
    if ks.len() > 0 {
        assert(!ks.drop_last().contains(k)) by {
            if ks.drop_last().contains(k) {
                let i = choose|i: int| 0 <= i < ks.drop_last().len() && ks.drop_last()[i] == k;
                assert(ks[i] == k);
            }
        }
        lemma_entries_absent(ks.drop_last(), vs.drop_last(), k);
    }
}

proof fn lemma_entries_last(ks: Seq<Seq<char>>, vs: Seq<Seq<char>>, k: Seq<char>, i: int)
    requires
        ks.len() == vs.len(),
        0 <= i < ks.len(),
        ks[i] == k,
        forall|j: int| i < j < ks.len() ==> ks[j] != k,
    ensures
        entries_map(ks, vs).contains_key(k),
        entries_map(ks, vs)[k] == vs[i],
    decreases ks.len(),
{
    if i < ks.len() - 1 {
        lemma_entries_last(ks.drop_last(), vs.drop_last(), k, i);
    }
}

/// Configured language ids, found by their sanitized ids and aliases.
pub struct LanguageLookup {
    keys: Vec<Vec<char>>,
    values: Vec<String>,
}

impl View for LanguageLookup {
    type V = Map<Seq<char>, Seq<char>>;

    closed spec fn view(&self) -> Map<Seq<char>, Seq<char>> {
        entries_map(views(self.keys@), string_views(self.values@))
    }
}

impl LanguageLookup {
    /// The two lists line up.
    #[verifier::type_invariant]
    spec fn lists_line_up(self) -> bool {
        self.keys@.len() == self.values@.len()
    }

    /// An empty lookup.
    pub fn new() -> (r: Self)
        ensures
            r@ == Map::<Seq<char>, Seq<char>>::empty(),
    {
        let r = LanguageLookup { keys: Vec::new(), values: Vec::new() };
        assert(r@ =~= Map::<Seq<char>, Seq<char>>::empty());
        r
    }

    /// The configured id known by `key`, if any.
    pub fn get(&self, key: &Vec<char>) -> (r: Option<String>)
        ensures
            match r {
                Some(v) => self@.contains_key(key@) && self@[key@] == v@,
                None => !self@.contains_key(key@),
            },
    {
        proof {
            use_type_invariant(self);
        }
        let ghost ks = views(self.keys@);
        let ghost vs = string_views(self.values@);
        let mut i = self.keys.len();
        while i > 0
            invariant
                i <= self.keys@.len() == self.values@.len(),
                ks == views(self.keys@),
                vs == string_views(self.values@),
                forall|j: int| i <= j < ks.len() ==> ks[j] != key@,
            decreases i,
        {
            i = i - 1;
            if chars_eq(&self.keys[i], key) {
                proof {
                    lemma_entries_last(ks, vs, key@, i as int);
                }
                return Some(self.values[i].clone());
            }
        }
        proof {
            assert(!ks.contains(key@)) by {
                if ks.contains(key@) {
                    let j = choose|j: int| 0 <= j < ks.len() && ks[j] == key@;
                    assert(ks[j] != key@);
                }
            }
            lemma_entries_absent(ks, vs, key@);
        }
        None
    }

    /// Maps `key` to `value`, replacing what it mapped to before.
    pub fn insert(&mut self, key: &Vec<char>, value: &String)
        ensures
            final(self)@ == old(self)@.insert(key@, value@),
    {
        proof {
            use_type_invariant(&*self);
        }
        let ghost ks = views(self.keys@);
        let ghost vs = string_views(self.values@);
        let mut taken = LanguageLookup::new();
        std::mem::swap(self, &mut taken);
        let LanguageLookup { mut keys, mut values } = taken;
        keys.push(copy_chars(key));
        values.push(value.clone());
        assert(views(keys@).drop_last() =~= ks);
        assert(string_views(values@).drop_last() =~= vs);
        *self = LanguageLookup { keys, values };
    }

    /// Whether `key` is known.
    pub fn contains(&self, key: &Vec<char>) -> (r: bool)
        ensures
            r == self@.contains_key(key@),
    {
        self.get(key).is_some()
    }
}

/// The aliases of `id` added to `m`, each pointing at `id`, where not known
/// already.
pub open spec fn add_aliases(m: Map<Seq<char>, Seq<char>>, als: Seq<Seq<char>>, id: Seq<char>) -> Map<Seq<char>, Seq<char>>
    decreases als.len(),
{
    if als.len() == 0 {
        m
    } else {
        let m1 = add_aliases(m, als.drop_last(), id);
        if m1.contains_key(als.last()) {
            m1
        } else {
            m1.insert(als.last(), id)
        }
    }
}

/// What the configured language ids are known by: each id's sanitized form
/// (a later language replacing an earlier one) and, where not taken, its
/// aliases. Ids that sanitize to nothing are skipped.
pub open spec fn lookup_spec(ids: Seq<Seq<char>>) -> Map<Seq<char>, Seq<char>>
    decreases ids.len(),
{
    if ids.len() == 0 {
        Map::empty()
    } else {
        let m = lookup_spec(ids.drop_last());
        let id = ids.last();
        let canon = sanitize_spec(id);
        if canon.len() == 0 {
            m
        } else {
            add_aliases(m.insert(canon, id), aliases_spec(canon), id)
        }
    }
}

/// The configured ids of a language list.
pub open spec fn config_ids(languages: Seq<SearchLanguageConfig>) -> Seq<Seq<char>> {
    languages.map_values(|l: SearchLanguageConfig| l.id@)
}

/// Builds the table that maps sanitized language ids and their ISO aliases
/// to the configured ids.
pub fn language_lookup(languages: &Vec<SearchLanguageConfig>) -> (r: LanguageLookup)
    ensures
        r@ == lookup_spec(config_ids(languages@)),
{
    let ghost ids = config_ids(languages@);
    let mut lookup = LanguageLookup::new();
    let n = languages.len();
    for i in 0..n
        invariant
            n == languages@.len() == ids.len(),
            ids == config_ids(languages@),
            lookup@ == lookup_spec(ids.take(i as int)),
    {
        let ghost before = lookup@;
        assert(ids.take(i + 1).drop_last() =~= ids.take(i as int));
        assert(ids.take(i + 1).last() == languages@[i as int].id@);
        let id = &languages[i].id;
        let canonical = sanitize_chars(&chars_of(id.as_str()));
        if canonical.len() > 0 {
            lookup.insert(&canonical, id);
            let aliases = language_aliases(&canonical);
            let ghost m0 = lookup@;
            let m = aliases.len();
            for j in 0..m
                invariant
                    m == aliases@.len(),
                    lookup@ == add_aliases(m0, views(aliases@).take(j as int), id@),
            {
                assert(views(aliases@).take(j + 1).drop_last() =~= views(aliases@).take(j as int));
                assert(views(aliases@).take(j + 1).last() == aliases@[j as int]@);
                if !lookup.contains(&aliases[j]) {
                    lookup.insert(&aliases[j], id);
                }
            }
            assert(views(aliases@).take(m as int) =~= views(aliases@));
        }
    }
    assert(ids.take(n as int) =~= ids);
    lookup
}

/// The configured id a language value stands for: its sanitized form when
/// that is known, else its primary subtag's when that is known, else the
/// sanitized form itself; `None` for a blank value.
pub open spec fn canonical_spec(value: Seq<char>, m: Map<Seq<char>, Seq<char>>) -> Option<Seq<char>> {
    let s = sanitize_spec(value);
    if s.len() == 0 {
        None
    } else if m.contains_key(s) {
        Some(m[s])
    } else if s.contains('-') && m.contains_key(primary_subtag(s)) {
        Some(m[primary_subtag(s)])
    } else {
        Some(s)
    }
}

fn holds_dash(v: &Vec<char>) -> (r: bool)
    ensures
        r == v@.contains('-'),
{
    let n = v.len();
    for i in 0..n
        invariant
            n == v@.len(),
            forall|k: int| 0 <= k < i ==> v@[k] != '-',
    {
        if v[i] == '-' {
            assert(v@[i as int] == '-');
            return true;
        }
    }
    false
}

/// Maps a language value to a configured language id.
pub fn canonical_language(value: &str, lookup: &LanguageLookup) -> (r: Option<String>)
    ensures
        match r {
            Some(v) => canonical_spec(value@, lookup@) == Some(v@),
            None => canonical_spec(value@, lookup@) is None,
        },
{
    let s = sanitize_chars(&chars_of(value));
    if s.len() == 0 {
        return None;
    }
    if let Some(found) = lookup.get(&s) {
        return Some(found);
    }
    if holds_dash(&s) {
        let primary = primary_of(&s);
        if let Some(found) = lookup.get(&primary) {
            return Some(found);
        }
    }
    Some(string_of(&s))
}

/// The stopwords `out` lists for the configured `words`: each trimmed and
/// lowercased, blanks dropped, without repeats, in ascending order.
pub open spec fn stopwords_normalized(out: Seq<Seq<char>>, words: Seq<Seq<char>>) -> bool {
    &&& strictly_sorted(out)
    &&& forall|y: Seq<char>|
        out.contains(y) <==> (y.len() > 0 && exists|i: int|
            0 <= i < words.len() && y == stopword_spec(#[trigger] words[i]))
}

/// A stopword as the index lists it: trimmed and lowercased.
pub open spec fn stopword_spec(w: Seq<char>) -> Seq<char> {
    unicode_lowercase(trim(w))
}

/// The stopwords of a language as the index lists them: trimmed,
/// lowercased, blanks dropped, without repeats, in ascending order.
pub fn normalize_stopwords(stopwords: &Vec<String>) -> (r: Vec<String>)
    ensures
        stopwords_normalized(string_views(r@), string_views(stopwords@)),
{
    let mut set: Vec<Vec<char>> = Vec::new();
    let n = stopwords.len();
    for i in 0..n
        invariant
            n == stopwords@.len(),
            strictly_sorted(views(set@)),
            forall|y: Seq<char>|
                views(set@).contains(y) <==> (y.len() > 0 && exists|k: int|
                    0 <= k < i && y == stopword_spec(#[trigger] stopwords@[k]@)),
    {
        let trimmed = trim_chars(&chars_of(stopwords[i].as_str()));
        let word = chars_of(to_lowercase(string_of(&trimmed).as_str()).as_str());
        assert(word@ == stopword_spec(stopwords@[i as int]@));
        let ghost before = views(set@);
        if word.len() > 0 {
            insert_sorted(&mut set, &word);
        }
        assert forall|y: Seq<char>|
            views(set@).contains(y) <== (y.len() > 0 && exists|k: int|
                0 <= k < i + 1 && y == stopword_spec(#[trigger] stopwords@[k]@)) by {
            if y.len() > 0 && exists|k: int| 0 <= k < i + 1 && y == stopword_spec(#[trigger] stopwords@[k]@) {
                let k = choose|k: int| 0 <= k < i + 1 && y == stopword_spec(#[trigger] stopwords@[k]@);
                if k < i {
                    assert(before.contains(y));
                }
            }
        }
    }
    let r = to_strings(&set);
    assert forall|y: Seq<char>|
        string_views(r@).contains(y) <==> (y.len() > 0 && exists|i: int|
            0 <= i < string_views(stopwords@).len() && y == stopword_spec(
                #[trigger] string_views(stopwords@)[i],
            )) by {
        if y.len() > 0 && exists|i: int|
            0 <= i < string_views(stopwords@).len() && y == stopword_spec(
                #[trigger] string_views(stopwords@)[i],
            ) {
            let i = choose|i: int|
                0 <= i < string_views(stopwords@).len() && y == stopword_spec(
                    #[trigger] string_views(stopwords@)[i],
                );
            assert(y == stopword_spec(stopwords@[i]@));
        }
        if string_views(r@).contains(y) {
            let k = choose|k: int| 0 <= k < n && y == stopword_spec(#[trigger] stopwords@[k]@);
            assert(y == stopword_spec(string_views(stopwords@)[k]));
        }
    }
    r
}

/// What the search index needs to know of a post.
#[derive(Clone, Debug)]
pub struct SearchPost {
    pub permalink: String,
    pub title: Option<String>,
    pub slug: String,
    pub language: String,
    pub tags: Vec<String>,
    pub post_type: Option<String>,
    pub abstract_text: Option<String>,
    pub excerpt: String,
    pub search_text: String,
    pub year: i32,
}

/// One document of the search index, but for its dates and payload.
#[derive(Clone, Debug)]
pub struct SearchEntry {
    pub id: String,
    pub title: String,
    pub url: String,
    pub language: String,
    pub tags: Vec<String>,
    pub kind: Option<String>,
    pub excerpt: String,
    pub content: String,
}

/// A language as the search index describes it.
#[derive(Clone, Debug)]
pub struct SearchLanguageMeta {
    pub id: String,
    pub name: Option<String>,
    pub stopwords: Vec<String>,
}

/// The search index's contents, but for the time it was made and each
/// document's dates and payload.
#[derive(Clone, Debug)]
pub struct SearchIndexPlan {
    pub default_language: String,
    pub languages: Vec<SearchLanguageMeta>,
    pub documents: Vec<SearchEntry>,
    pub tags: Vec<String>,
    pub types: Vec<String>,
    pub years: Vec<i64>,
}

/// A post's title, or its slug where it has none.
pub open spec fn entry_title(p: SearchPost) -> Seq<char> {
    match p.title {
        Some(t) => t@,
        None => p.slug@,
    }
}

/// A post's search excerpt: its abstract, else its excerpt when that is not
/// blank, else its title.
pub open spec fn entry_excerpt(p: SearchPost) -> Seq<char> {
    match p.abstract_text {
        Some(a) => a@,
        None => if trim(p.excerpt@).len() > 0 {
            p.excerpt@
        } else {
            entry_title(p)
        },
    }
}

/// The index's default language: the configured one mapped to a configured
/// id, or merely sanitized.
pub open spec fn index_default_language(c: SearchConfig) -> Seq<char> {
    match canonical_spec(c.default_language@, lookup_spec(config_ids(c.languages@))) {
        Some(l) => l,
        None => sanitize_spec(c.default_language@),
    }
}

/// The tags `out` lists for a post with `tags`: the non-blank ones, without
/// repeats, in ascending order.
pub open spec fn tags_normalized(out: Seq<Seq<char>>, tags: Seq<Seq<char>>) -> bool {
    &&& strictly_sorted(out)
    &&& forall|y: Seq<char>| out.contains(y) <==> (y.len() > 0 && tags.contains(y))
}

/// A search document as the index lists it for post `p`.
pub open spec fn entry_matches(e: SearchEntry, p: SearchPost, c: SearchConfig) -> bool {
    &&& e.id@ == p.permalink@
    &&& e.url@ == p.permalink@
    &&& e.title@ == entry_title(p)
    &&& e.language@ == (match canonical_spec(p.language@, lookup_spec(config_ids(c.languages@))) {
        Some(l) => l,
        None => index_default_language(c),
    })
    &&& tags_normalized(string_views(e.tags@), string_views(p.tags@))
    &&& opt_view(e.kind) == opt_view(p.post_type)
    &&& e.excerpt@ == entry_excerpt(p)
    &&& e.content@ == p.search_text@
}

/// Whether some post has tag `y`.
pub open spec fn some_post_tagged(posts: Seq<SearchPost>, y: Seq<char>) -> bool {
    exists|i: int| 0 <= i < posts.len() && string_views(#[trigger] posts[i].tags@).contains(y)
}

/// Whether some post has type `y` (a type that is not blank).
pub open spec fn some_post_typed(posts: Seq<SearchPost>, y: Seq<char>) -> bool {
    exists|i: int|
        0 <= i < posts.len() && #[trigger] opt_view(posts[i].post_type) == Some(y) && trim(y).len() > 0
}

/// Whether some post was published in year `y`.
pub open spec fn some_post_in_year(posts: Seq<SearchPost>, y: i64) -> bool {
    exists|i: int| 0 <= i < posts.len() && #[trigger] posts[i].year == y
}

fn add_tags(set: &mut Vec<Vec<char>>, tags: &Vec<String>)
    requires
        strictly_sorted(views(old(set)@)),
    ensures
        strictly_sorted(views(final(set)@)),
        forall|y: Seq<char>|
            #[trigger] views(final(set)@).contains(y) <==> (views(old(set)@).contains(y) || (y.len() > 0
                && string_views(tags@).contains(y))),
{
    let ghost set0 = views(set@);
    let n = tags.len();
    let mut j: usize = 0;
    while j < n
        invariant
            j <= n == tags@.len(),
            strictly_sorted(views(set@)),
            forall|y: Seq<char>|
                #[trigger] views(set@).contains(y) <==> (set0.contains(y) || (y.len() > 0
                    && string_views(tags@).take(j as int).contains(y))),
        decreases n - j,
    {
        let t = chars_of(tags[j].as_str());
        let ghost before = views(set@);
        let ghost seen = string_views(tags@).take(j as int);
        if t.len() > 0 {
            insert_sorted(set, &t);
        }
        assert(string_views(tags@).take(j + 1) =~= seen.push(t@));
        proof {
            crate::text::lemma_push_contains(seen, t@);
        }
        assert forall|y: Seq<char>|
            #[trigger] views(set@).contains(y) <==> (set0.contains(y) || (y.len() > 0
                && string_views(tags@).take(j + 1).contains(y))) by {
            assert(before.contains(y) <==> (set0.contains(y) || (y.len() > 0 && seen.contains(y))));
            assert(seen.push(t@).contains(y) <==> (seen.contains(y) || y == t@));
        }
        j = j + 1;
    }
    assert(string_views(tags@).take(n as int) =~= string_views(tags@));
}

fn entry_tags(tags: &Vec<String>) -> (r: Vec<Vec<char>>)
    ensures
        tags_normalized(views(r@), string_views(tags@)),
{
    let mut set: Vec<Vec<char>> = Vec::new();
    add_tags(&mut set, tags);
    set
}

fn plan_entry(p: &SearchPost, lookup: &LanguageLookup, default_language: &String, Ghost(c): Ghost<SearchConfig>) -> (r: SearchEntry)
    requires
        lookup@ == lookup_spec(config_ids(c.languages@)),
        default_language@ == index_default_language(c),
    ensures
        entry_matches(r, *p, c),
{
    let language = match canonical_language(p.language.as_str(), lookup) {
        Some(l) => l,
        None => default_language.clone(),
    };
    let title = match &p.title {
        Some(t) => t.clone(),
        None => p.slug.clone(),
    };
    let excerpt = match &p.abstract_text {
        Some(a) => a.clone(),
        None => if trim_chars(&chars_of(p.excerpt.as_str())).len() > 0 {
            p.excerpt.clone()
        } else {
            title.clone()
        },
    };
    let tags = to_strings(&entry_tags(&p.tags));
    SearchEntry {
        id: p.permalink.clone(),
        title,
        url: p.permalink.clone(),
        language,
        tags,
        kind: crate::text::clone_opt(&p.post_type),
        excerpt,
        content: p.search_text.clone(),
    }
}

fn plan_languages(languages: &Vec<SearchLanguageConfig>) -> (r: Vec<SearchLanguageMeta>)
    ensures
        r@.len() == languages@.len(),
        forall|i: int|
            0 <= i < r@.len() ==> {
                &&& (#[trigger] r@[i]).id@ == languages@[i].id@
                &&& opt_view(r@[i].name) == opt_view(languages@[i].name)
                &&& stopwords_normalized(string_views(r@[i].stopwords@), string_views(languages@[i].stopwords@))
            },
{
    let mut r: Vec<SearchLanguageMeta> = Vec::new();
    let n = languages.len();
    for i in 0..n
        invariant
            n == languages@.len(),
            r@.len() == i,
            forall|k: int|
                0 <= k < i ==> {
                    &&& (#[trigger] r@[k]).id@ == languages@[k].id@
                    &&& opt_view(r@[k].name) == opt_view(languages@[k].name)
                    &&& stopwords_normalized(string_views(r@[k].stopwords@), string_views(languages@[k].stopwords@))
                },
    {
        let entry = &languages[i];
        r.push(
            SearchLanguageMeta {
                id: entry.id.clone(),
                name: crate::text::clone_opt(&entry.name),
                stopwords: normalize_stopwords(&entry.stopwords),
            },
        );
    }
    r
}

/// Lays out the search index for `posts`: the default language, the
/// languages with their normalized stopwords, one document per post (in the
/// posts' order) and the facets, i.e. the ascending sets of the non-blank
/// tags, of the non-blank types and of the years the posts use.
///
/// The dates, the payload fields, the serialization and the digest are left
/// to the caller.
pub fn plan_search_index(search: &SearchConfig, posts: &Vec<SearchPost>) -> (r: SearchIndexPlan)
    ensures
        r.default_language@ == index_default_language(*search),
        r.languages@.len() == search.languages@.len(),
        forall|i: int|
            0 <= i < r.languages@.len() ==> {
                &&& (#[trigger] r.languages@[i]).id@ == search.languages@[i].id@
                &&& opt_view(r.languages@[i].name) == opt_view(search.languages@[i].name)
                &&& stopwords_normalized(
                    string_views(r.languages@[i].stopwords@),
                    string_views(search.languages@[i].stopwords@),
                )
            },
        r.documents@.len() == posts@.len(),
        forall|i: int| 0 <= i < posts@.len() ==> entry_matches(#[trigger] r.documents@[i], posts@[i], *search),
        strictly_sorted(string_views(r.tags@)),
        forall|y: Seq<char>| string_views(r.tags@).contains(y) <==> (y.len() > 0 && some_post_tagged(posts@, y)),
        strictly_sorted(string_views(r.types@)),
        forall|y: Seq<char>| string_views(r.types@).contains(y) <==> some_post_typed(posts@, y),
        strictly_ascending(r.years@),
        forall|y: i64| r.years@.contains(y) <==> some_post_in_year(posts@, y),
{
    let lookup = language_lookup(&search.languages);
    let default_language = match canonical_language(search.default_language.as_str(), &lookup) {
        Some(l) => l,
        None => sanitize_language(search.default_language.as_str()),
    };
    let mut documents: Vec<SearchEntry> = Vec::new();
    let mut tags: Vec<Vec<char>> = Vec::new();
    let mut types: Vec<Vec<char>> = Vec::new();
    let mut years: Vec<i64> = Vec::new();
    let n = posts.len();
    for i in 0..n
        invariant
            n == posts@.len(),
            lookup@ == lookup_spec(config_ids(search.languages@)),
            default_language@ == index_default_language(*search),
            documents@.len() == i,
            forall|k: int| 0 <= k < i ==> entry_matches(#[trigger] documents@[k], posts@[k], *search),
            strictly_sorted(views(tags@)),
            forall|y: Seq<char>| views(tags@).contains(y) <==> (y.len() > 0 && some_post_tagged(posts@.take(i as int), y)),
            strictly_sorted(views(types@)),
            forall|y: Seq<char>| views(types@).contains(y) <==> some_post_typed(posts@.take(i as int), y),
            strictly_ascending(years@),
            forall|y: i64| years@.contains(y) <==> some_post_in_year(posts@.take(i as int), y),
    {
        let post = &posts[i];
        documents.push(plan_entry(post, &lookup, &default_language, Ghost(*search)));
        let ghost pre = posts@.take(i as int);
        let ghost now = posts@.take(i + 1);
        assert(now =~= pre.push(posts@[i as int]));
        let ghost tags0 = views(tags@);
        add_tags(&mut tags, &post.tags);

        assert forall|y: Seq<char>| views(tags@).contains(y) <==> (y.len() > 0 && some_post_tagged(now, y)) by {
            if some_post_tagged(now, y) {
                let k = choose|k: int| 0 <= k < now.len() && string_views(#[trigger] now[k].tags@).contains(y);
                if k < i {
                    assert(string_views(pre[k].tags@).contains(y));
                }
            }
            if y.len() > 0 && tags0.contains(y) {
                let k = choose|k: int| 0 <= k < pre.len() && string_views(#[trigger] pre[k].tags@).contains(y);
                assert(string_views(now[k].tags@).contains(y));
            }
            if y.len() > 0 && string_views(post.tags@).contains(y) {
                assert(string_views(now[i as int].tags@).contains(y));
            }
        }
        let ghost types0 = views(types@);
        match &post.post_type {
            Some(kind) => {
                let k = chars_of(kind.as_str());
                if trim_chars(&k).len() > 0 {
                    insert_sorted(&mut types, &k);
                }
            },
            None => {},
        }
        assert forall|y: Seq<char>| views(types@).contains(y) <==> some_post_typed(now, y) by {
            if some_post_typed(now, y) {
                let k = choose|k: int|
                    0 <= k < now.len() && #[trigger] opt_view(now[k].post_type) == Some(y) && trim(y).len() > 0;
                if k < i {
                    assert(opt_view(pre[k].post_type) == Some(y));
                }
            }
            if types0.contains(y) {
                let k = choose|k: int|
                    0 <= k < pre.len() && #[trigger] opt_view(pre[k].post_type) == Some(y) && trim(y).len() > 0;
                assert(opt_view(now[k].post_type) == Some(y));
            }
            if views(types@).contains(y) && !types0.contains(y) {
                assert(opt_view(now[i as int].post_type) == Some(y));
            }
        }
        let ghost years0 = years@;
        insert_key(&mut years, post.year as i64);
        assert forall|y: i64| years@.contains(y) <==> some_post_in_year(now, y) by {
            if some_post_in_year(now, y) {
                let k = choose|k: int| 0 <= k < now.len() && #[trigger] now[k].year == y;
                if k < i {
                    assert(pre[k].year == y);
                }
            }
            if years0.contains(y) {
                let k = choose|k: int| 0 <= k < pre.len() && #[trigger] pre[k].year == y;
                assert(now[k].year == y);
            }
            if y == post.year {
                assert(now[i as int].year == y);
            }
        }
    }
    assert(posts@.take(n as int) =~= posts@);
    SearchIndexPlan {
        default_language,
        languages: plan_languages(&search.languages),
        documents,
        tags: to_strings(&tags),
        types: to_strings(&types),
        years,
    }
}

/// Why the dates of the search index could not be written.
#[derive(Clone, Copy, Debug, PartialEq, Eq, Structural)]
pub enum IndexDateIssue {
    /// The configured date format is not a valid format description.
    InvalidFormat,
    /// A post date cannot be written in RFC 3339.
    Rfc3339Failed,
    /// A post date cannot be written with the configured format.
    Unformattable,
}

/// Whether a date format is the `RFC3339` keyword, in any ASCII case.
pub open spec fn is_rfc3339_keyword(date_format: Seq<char>) -> bool {
    lower_seq(date_format) == "rfc3339"@
}

/// The two dates a search document carries for a post: RFC 3339, and as
/// displayed (the same text under the `RFC3339` keyword, else written with
/// the configured format description).
pub open spec fn index_date_spec(date_format: Seq<char>, dt: DateTime) -> Result<(Seq<char>, Seq<char>), IndexDateIssue> {
    match rfc3339_text(dt) {
        None => Err(IndexDateIssue::Rfc3339Failed),
        Some(iso) => if is_rfc3339_keyword(date_format) {
            Ok((iso, iso))
        } else {
            match described_date_v1(dt, date_format) {
                Ok(shown) => Ok((iso, shown)),
                Err(_) => Err(IndexDateIssue::Unformattable),
            }
        },
    }
}

/// The dates of the posts in order, or the first post's failure.
pub open spec fn index_dates_from(date_format: Seq<char>, dts: Seq<DateTime>) -> Result<Seq<(Seq<char>, Seq<char>)>, IndexDateIssue>
    decreases dts.len(),
{
    if dts.len() == 0 {
        Ok(Seq::empty())
    } else {
        match index_dates_from(date_format, dts.drop_last()) {
            Err(e) => Err(e),
            Ok(prev) => match index_date_spec(date_format, dts.last()) {
                Err(e) => Err(e),
                Ok(pair) => Ok(prev.push(pair)),
            },
        }
    }
}

/// The search index's dates: refused outright when the configured format is
/// neither the keyword nor a valid description, else each post's pair.
pub open spec fn index_dates_spec(date_format: Seq<char>, dts: Seq<DateTime>) -> Result<Seq<(Seq<char>, Seq<char>)>, IndexDateIssue> {
    if !is_rfc3339_keyword(date_format) && format_description_items(date_format) is None {
        Err(IndexDateIssue::InvalidFormat)
    } else {
        index_dates_from(date_format, dts)
    }
}

/// The views of date pairs.
pub open spec fn pair_views(v: Seq<(String, String)>) -> Seq<(Seq<char>, Seq<char>)> {
    v.map_values(|p: (String, String)| (p.0@, p.1@))
}

/// Writes the RFC 3339 and display dates of the posts of the search index.
pub fn index_dates(date_format: &str, dates: &Vec<DateTime>) -> (r: Result<Vec<(String, String)>, IndexDateIssue>)
    ensures
        match r {
            Ok(v) => index_dates_spec(date_format@, dates@) == Ok::<Seq<(Seq<char>, Seq<char>)>, IndexDateIssue>(pair_views(v@)),
            Err(e) => index_dates_spec(date_format@, dates@) == Err::<Seq<(Seq<char>, Seq<char>)>, IndexDateIssue>(e),
        },
{
    proof {
        reveal_strlit("rfc3339");
    }
    let keyword = chars_eq(&lower_chars(&chars_of(date_format)), &chars_of("rfc3339"));
    if !keyword {
        if parse_format_description(date_format).is_none() {
            return Err(IndexDateIssue::InvalidFormat);
        }
    }
    let mut out: Vec<(String, String)> = Vec::new();
    let n = dates.len();
    assert(dates@.take(0) =~= Seq::<DateTime>::empty());
    assert(pair_views(out@) =~= Seq::<(Seq<char>, Seq<char>)>::empty());
    for i in 0..n
        invariant
            n == dates@.len(),
            out@.len() == i,
            keyword == is_rfc3339_keyword(date_format@),
            !keyword ==> format_description_items(date_format@) is Some,
            index_dates_from(date_format@, dates@.take(i as int)) == Ok::<Seq<(Seq<char>, Seq<char>)>, IndexDateIssue>(pair_views(out@)),
    {
        assert(dates@.take(i + 1).drop_last() =~= dates@.take(i as int));
        assert(dates@.take(i + 1).last() == dates@[i as int]);
        let iso = match format_rfc3339(&dates[i]) {
            Some(t) => t,
            None => {
                proof {
                    lemma_index_dates_stop(date_format@, dates@, i as int);
                }
                return Err(IndexDateIssue::Rfc3339Failed);
            },
        };
        let shown = if keyword {
            iso.clone()
        } else {
            match format_described_v1(&dates[i], date_format) {
                Ok(t) => t,
                Err(_) => {
                    proof {
                        lemma_index_dates_stop(date_format@, dates@, i as int);
                    }
                    return Err(IndexDateIssue::Unformattable);
                },
            }
        };
        let ghost before = out@;
        out.push((iso, shown));
        assert(pair_views(out@) =~= pair_views(before).push((out@[i as int].0@, out@[i as int].1@)));
    }
    assert(dates@.take(n as int) =~= dates@);
    Ok(out)
}

/// Once a post's dates fail, the dates of every longer prefix fail the same
/// way.
proof fn lemma_index_dates_stop(date_format: Seq<char>, dts: Seq<DateTime>, i: int)
    requires
        0 <= i < dts.len(),
        index_dates_from(date_format, dts.take(i + 1)) is Err,
    ensures
        index_dates_from(date_format, dts) == index_dates_from(date_format, dts.take(i + 1)),
    decreases dts.len() - i,
{
    if i + 1 < dts.len() {
        assert(dts.take(i + 2).drop_last() =~= dts.take(i + 1));
        lemma_index_dates_stop(date_format, dts, i + 1);
    } else {
        assert(dts.take(i + 1) =~= dts);
    }
}

/// Whether the configured payload field at `i` goes into a document: the
/// post has a value for it that is not null, and no earlier field has the
/// same name.
pub open spec fn payload_field_kept(fields: Seq<Seq<char>>, present: Seq<bool>, i: int) -> bool {
    &&& present[i]
    &&& forall|j: int| 0 <= j < i ==> fields[j] != fields[i]
}

/// The payload fields a search document carries, as indices into `fields`
/// in their order; `None` when it carries none. `present[i]` says whether
/// the post has a value for `fields[i]` that is not null.
pub fn payload_selection(fields: &Vec<String>, present: &Vec<bool>) -> (r: Option<Vec<usize>>)
    requires
        fields@.len() == present@.len(),
    ensures
        r is None <==> forall|i: int| 0 <= i < fields@.len() ==> !payload_field_kept(string_views(fields@), present@, i),
        r matches Some(v) ==> {
            &&& forall|k: int| 0 <= k < v@.len() ==> v@[k] < fields@.len()
            &&& forall|a: int, b: int| 0 <= a < b < v@.len() ==> v@[a] < v@[b]
            &&& forall|i: int|
                0 <= i < fields@.len() ==> (v@.contains(i as usize) <==> #[trigger] payload_field_kept(
                    string_views(fields@),
                    present@,
                    i,
                ))
        },
{
    let ghost fs = string_views(fields@);
    let n = fields.len();
    let mut v: Vec<usize> = Vec::new();
    for i in 0..n
        invariant
            n == fields@.len() == present@.len(),
            fs == string_views(fields@),
            forall|k: int| 0 <= k < v@.len() ==> v@[k] < i,
            forall|a: int, b: int| 0 <= a < b < v@.len() ==> v@[a] < v@[b],
            forall|m: int| 0 <= m < i ==> (v@.contains(m as usize) <==> #[trigger] payload_field_kept(fs, present@, m)),
    {
        let mut fresh = true;
        let name = chars_of(fields[i].as_str());
        for j in 0..i
            invariant
                n == fields@.len() == present@.len(),
                i < n,
                fs == string_views(fields@),
                name@ == fs[i as int],
                fresh <==> (forall|q: int| 0 <= q < j ==> #[trigger] fs[q] != fs[i as int]),
        {
            assert(fs[j as int] == fields@[j as int]@);
            if chars_eq(&chars_of(fields[j].as_str()), &name) {
                fresh = false;
            }
        }
        let ghost before = v@;
        if present[i] && fresh {
            v.push(i);
        }
        proof {
            assert(present[i as int] && fresh <==> payload_field_kept(fs, present@, i as int));
            assert forall|m: int| 0 <= m <= i implies (v@.contains(m as usize) <==> #[trigger] payload_field_kept(
                fs,
                present@,
                m,
            )) by {
                if v@.len() > before.len() {
                    assert(v@ == before.push(i));
                    if v@.contains(m as usize) && m < i {
                        let t = choose|t: int| 0 <= t < v@.len() && v@[t] == m as usize;
                        assert(t < before.len());
                    }
                    if m < i && before.contains(m as usize) {
                        let t = choose|t: int| 0 <= t < before.len() && before[t] == m as usize;
                        assert(v@[t] == before[t]);
                    }
                    if m == i {
                        assert(v@[v@.len() - 1] == i);
                    }
                } else if m == i && v@.contains(m as usize) {
                    let t = choose|t: int| 0 <= t < v@.len() && v@[t] == m as usize;
                }
            }
        }
    }
    if v.len() == 0 {
        assert forall|i: int| 0 <= i < fields@.len() implies !payload_field_kept(fs, present@, i) by {
            if payload_field_kept(fs, present@, i) {
                assert(v@.contains(i as usize));
            }
        }
        None
    } else {
        assert(v@.contains(v@[0]));
        assert(payload_field_kept(fs, present@, v@[0] as int));
        Some(v)
    }
}

/// What a search document says of its post: its id and URL are the
/// permalink, its title is the post's title (the slug when it has none), its
/// excerpt is the abstract when there is one, else the post's excerpt when
/// that is not blank, else the title, and its content is the post's search
/// text.
pub proof fn search_documents_describe_their_posts(e: SearchEntry, p: SearchPost, c: SearchConfig)
    requires
        entry_matches(e, p, c),
    ensures
        e.id@ == p.permalink@,
        e.url@ == p.permalink@,
        p.title matches Some(t) ==> e.title@ == t@,
        p.title is None ==> e.title@ == p.slug@,
        p.abstract_text matches Some(a) ==> e.excerpt@ == a@,
        p.abstract_text is None && trim(p.excerpt@).len() > 0 ==> e.excerpt@ == p.excerpt@,
        p.abstract_text is None && trim(p.excerpt@).len() == 0 ==> e.excerpt@ == e.title@,
        e.content@ == p.search_text@,
{
}

} // verus!
