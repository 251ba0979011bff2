//! The site configuration and its validation.

use vstd::prelude::*;

use super::date_format::{format_description_items, format_verdict, parse_format, parse_format_description};
use super::search::{search_config_issue, search_error_message, validate_search_config, SearchConfig, SearchConfigError, SearchConfigIssue};
use super::timezone::{parse_timezone, timezone_spec, TimeOffset, TimezoneIssue};
use crate::text::{chars_eq, chars_of, extend_str, string_of, trim, trim_chars};
use crate::utils::{parse_url, parsed_url};

verus! {

/// The scheme of `value` as `url::Url::parse` reads it, or `None` where the
/// crate refuses `value` as an absolute URL.
pub open spec fn parsed_url_scheme(value: Seq<char>) -> Option<Seq<char>> {
    match parsed_url(value) {
        Some((scheme, _)) => Some(scheme),
        None => None,
    }
}

fn url_scheme(value: &str) -> (r: Option<String>)
    ensures
        crate::text::opt_view(r) == parsed_url_scheme(value@),
{
    match parse_url(value) {
        Some((scheme, _)) => Some(scheme),
        None => None,
    }
}

/// The settings of `bckt.yaml` that the site generator reads.
///
/// Keys the generator does not know are kept beside it by the application,
/// which hands them to templates.
#[derive(Debug, Clone)]
pub struct Config {
    pub title: Option<String>,
    pub base_url: String,
    pub homepage_posts: usize,
    pub date_format: String,
    pub paginate_tags: bool,
    pub default_timezone: String,
    pub theme: Option<String>,
    pub search: SearchConfig,
}

impl Default for Config {
    fn default() -> (r: Self)
        ensures
            r.title is None,
            r.base_url@ == "https://example.com"@,
            r.homepage_posts == 5,
            r.date_format@ == "[year]-[month]-[day]"@,
            r.paginate_tags,
            r.default_timezone@ == "+00:00"@,
            r.theme matches Some(t) && t@ == "bckt3"@,
            r.search.asset_path@ == "assets/search/search-index.json"@,
            r.search.default_language@ == "en"@,
            r.search.languages@.len() == 2,
            r.search.languages@[0].id@ == "en"@,
            r.search.languages@[1].id@ == "el"@,
            r.search.payload_fields@.len() == 0,
    {
        Config {
            title: None,
            base_url: "https://example.com".to_owned(),
            homepage_posts: 5,
            date_format: "[year]-[month]-[day]".to_owned(),
            paginate_tags: true,
            default_timezone: "+00:00".to_owned(),
            theme: Some("bckt3".to_owned()),
            search: SearchConfig::default(),
        }
    }
}

/// What is wrong with a configuration.
#[derive(Clone, Copy, Debug, PartialEq, Eq, Structural)]
pub enum ConfigIssue {
    BaseUrlEmpty,
    BaseUrlNotAbsolute,
    BaseUrlScheme,
    HomepagePostsZero,
    DateFormat,
    Timezone,
    Search(SearchConfigIssue),
}

/// A rejected configuration: the problem, the configured value its message
/// quotes (empty where it quotes none) and the file it came from.
#[derive(Clone, Debug)]
pub struct ConfigError {
    pub issue: ConfigIssue,
    pub value: String,
    pub origin: String,
}

/// The first problem of a configuration, given the URL parser's reading of
/// `base_url` and the format parser's reading of `date_format`: the base URL
/// (blank, not absolute, not http or https), the homepage post count, the
/// date format, the timezone, then the search section.
pub open spec fn config_issue(c: Config, scheme: Option<Seq<char>>, items: Option<Seq<bool>>) -> Option<(ConfigIssue, Seq<char>)> {
    if trim(c.base_url@).len() == 0 {
        Some((ConfigIssue::BaseUrlEmpty, Seq::<char>::empty()))
    } else if scheme is None {
        Some((ConfigIssue::BaseUrlNotAbsolute, Seq::<char>::empty()))
    } else if scheme->0 != "http"@ && scheme->0 != "https"@ {
        Some((ConfigIssue::BaseUrlScheme, Seq::<char>::empty()))
    } else if c.homepage_posts == 0 {
        Some((ConfigIssue::HomepagePostsZero, Seq::<char>::empty()))
    } else if format_verdict(c.date_format@, items) is Err {
        Some((ConfigIssue::DateFormat, c.date_format@))
    } else if timezone_spec(c.default_timezone@) is Err {
        Some((ConfigIssue::Timezone, c.default_timezone@))
    } else {
        match search_config_issue(c.search) {
            Some((i, v)) => Some((ConfigIssue::Search(i), v)),
            None => None,
        }
    }
}

/// The text of an optional string.
pub open spec fn scheme_view(o: Option<String>) -> Option<Seq<char>> {
    match o {
        Some(s) => Some(s@),
        None => None,
    }
}

/// The entries of an optional vector.
pub open spec fn items_view(o: Option<Vec<bool>>) -> Option<Seq<bool>> {
    match o {
        Some(v) => Some(v@),
        None => None,
    }
}

fn error(issue: ConfigIssue, value: &String, origin: &str) -> (r: ConfigError)
    ensures
        r.issue == issue,
        r.value@ == value@,
        r.origin@ == origin@,
{
    ConfigError { issue, value: value.clone(), origin: origin.to_owned() }
}

fn bare_error(issue: ConfigIssue, origin: &str) -> (r: ConfigError)
    ensures
        r.issue == issue,
        r.value@ == Seq::<char>::empty(),
        r.origin@ == origin@,
{
    ConfigError { issue, value: String::new(), origin: origin.to_owned() }
}

impl Config {
    /// Checks the configuration read from `origin`, given what the URL
    /// parser made of `base_url` (its scheme, or `None`) and what the format
    /// parser made of `date_format`.
    pub fn validate_parsed(&self, origin: &str, scheme: &Option<String>, items: &Option<Vec<bool>>) -> (r: Result<(), ConfigError>)
        ensures
            match r {
                Ok(()) => config_issue(*self, scheme_view(*scheme), items_view(*items)) is None,
                Err(e) => config_issue(*self, scheme_view(*scheme), items_view(*items))
                    == Some((e.issue, e.value@)) && e.origin@ == origin@,
            },
    {
        if trim_chars(&chars_of(self.base_url.as_str())).len() == 0 {
            return Err(bare_error(ConfigIssue::BaseUrlEmpty, origin));
        }
        match scheme {
            None => {
                return Err(bare_error(ConfigIssue::BaseUrlNotAbsolute, origin));
            },
            Some(s) => {
                let sc = chars_of(s.as_str());
                if !chars_eq(&sc, &chars_of("http")) && !chars_eq(&sc, &chars_of("https")) {
                    return Err(bare_error(ConfigIssue::BaseUrlScheme, origin));
                }
            },
        }
        if self.homepage_posts == 0 {
            return Err(bare_error(ConfigIssue::HomepagePostsZero, origin));
        }
        let format_ok = if chars_eq(&chars_of(self.date_format.as_str()), &chars_of("RFC3339")) {
            true
        } else {
            super::date_format::judge_format_items(items).is_ok()
        };
        if !format_ok {
            return Err(error(ConfigIssue::DateFormat, &self.date_format, origin));
        }
        if parse_timezone(self.default_timezone.as_str()).is_err() {
            return Err(error(ConfigIssue::Timezone, &self.default_timezone, origin));
        }
        match validate_search_config(&self.search, origin) {
            Ok(()) => Ok(()),
            Err(e) => Err(ConfigError { issue: ConfigIssue::Search(e.issue), value: e.value, origin: e.origin }),
        }
    }

    /// Checks the configuration read from `origin`: `base_url` must be an
    /// absolute http(s) URL, `homepage_posts` positive, `date_format` and
    /// `default_timezone` readable, and the search section valid.
    pub fn validate(&self, origin: &str) -> (r: Result<(), ConfigError>)
        ensures
            match r {
                Ok(()) => config_issue(*self, parsed_url_scheme(self.base_url@), format_description_items(self.date_format@)) is None,
                Err(e) => config_issue(*self, parsed_url_scheme(self.base_url@), format_description_items(self.date_format@))
                    == Some((e.issue, e.value@)) && e.origin@ == origin@,
            },
    {
        let scheme = url_scheme(self.base_url.as_str());
        let items = parse_format_description(self.date_format.as_str());
        self.validate_parsed(origin, &scheme, &items)
    }

    /// The offset named by `default_timezone`.
    pub fn default_offset(&self) -> (r: Result<TimeOffset, TimezoneIssue>)
        ensures
            match r {
                Ok(o) => timezone_spec(self.default_timezone@) == Ok::<(int, int, int), TimezoneIssue>(
                    (o.hours as int, o.minutes as int, o.seconds as int),
                ),
                Err(e) => timezone_spec(self.default_timezone@) == Err::<(int, int, int), TimezoneIssue>(e),
            },
    {
        parse_timezone(self.default_timezone.as_str())
    }
}

/// The message shown for a rejected configuration.
pub open spec fn config_error_message(issue: ConfigIssue, value: Seq<char>, origin: Seq<char>) -> Seq<char> {
    match issue {
        ConfigIssue::Search(i) => search_error_message(i, value, origin),
        _ => origin + ": "@ + match issue {
            ConfigIssue::BaseUrlEmpty => "base_url must not be empty"@,
            ConfigIssue::BaseUrlNotAbsolute => "base_url must be an absolute URL"@,
            ConfigIssue::BaseUrlScheme => "base_url must use http or https"@,
            ConfigIssue::HomepagePostsZero => "homepage_posts must be greater than zero"@,
            ConfigIssue::DateFormat => "date_format '"@ + value
                + "' is invalid (see https://docs.rs/time/latest/time/format_description)"@,
            _ => "default_timezone '"@ + value + "' is invalid (expected offset like +00:00)"@,
        },
    }
}

impl ConfigError {
    /// The error's message, naming the configuration file it came from.
    pub fn message(&self) -> (r: String)
        ensures
            r@ == config_error_message(self.issue, self.value@, self.origin@),
    {
        if let ConfigIssue::Search(i) = self.issue {
            let e = SearchConfigError { issue: i, value: self.value.clone(), origin: self.origin.clone() };
            return e.message();
        }
        let mut out = chars_of(self.origin.as_str());
        extend_str(&mut out, ": ");
        match self.issue {
            ConfigIssue::BaseUrlEmpty => extend_str(&mut out, "base_url must not be empty"),
            ConfigIssue::BaseUrlNotAbsolute => extend_str(&mut out, "base_url must be an absolute URL"),
            ConfigIssue::BaseUrlScheme => extend_str(&mut out, "base_url must use http or https"),
            ConfigIssue::HomepagePostsZero => extend_str(
                &mut out,
                "homepage_posts must be greater than zero",
            ),
            ConfigIssue::DateFormat => {
                extend_str(&mut out, "date_format '");
                extend_str(&mut out, self.value.as_str());
                extend_str(
                    &mut out,
                    "' is invalid (see https://docs.rs/time/latest/time/format_description)",
                );
            },
            _ => {
                extend_str(&mut out, "default_timezone '");
                extend_str(&mut out, self.value.as_str());
                extend_str(&mut out, "' is invalid (expected offset like +00:00)");
            },
        }
        string_of(&out)
    }
}

} // verus!
