//! `bckt config`: which configuration value a query asks for.

use vstd::prelude::*;

use crate::cli::ConfigArgs;
use crate::config::Config;
use crate::text::{decimal, opt_view, push_decimal, string_of};

verus! {

/// Why a configuration query was refused.
#[derive(Clone, Copy, Debug, PartialEq, Eq, Structural)]
pub enum ConfigQueryIssue {
    /// No key was asked for.
    NoKey,
    /// More than one key was asked for.
    TooManyKeys,
}

impl ConfigQueryIssue {
    /// The message shown for a refused query.
    pub fn message(&self) -> (r: String)
        ensures
            r@ == (match *self {
                ConfigQueryIssue::NoKey => "No config key specified. Use --help to see available options."@,
                ConfigQueryIssue::TooManyKeys => "Only one config key can be queried at a time."@,
            }),
    {
        match self {
            ConfigQueryIssue::NoKey => "No config key specified. Use --help to see available options.".to_owned(),
            ConfigQueryIssue::TooManyKeys => "Only one config key can be queried at a time.".to_owned(),
        }
    }
}

/// How many keys a query asks for.
pub open spec fn keys_asked(a: ConfigArgs) -> nat {
    (if a.base_url { 1nat } else { 0nat }) + (if a.title { 1nat } else { 0nat }) + (if a.homepage_posts {
        1nat
    } else {
        0nat
    }) + (if a.date_format { 1nat } else { 0nat }) + (if a.default_timezone { 1nat } else { 0nat }) + (
    if a.theme {
        1nat
    } else {
        0nat
    }) + (if a.search_asset_path { 1nat } else { 0nat }) + (if a.search_default_language {
        1nat
    } else {
        0nat
    })
}

/// The answer to a query for exactly one key: the key's value as it is
/// printed, or `None` for an unset title or theme.
pub open spec fn query_value(a: ConfigArgs, c: Config) -> Option<Seq<char>> {
    if a.base_url {
        Some(c.base_url@)
    } else if a.title {
        opt_view(c.title)
    } else if a.homepage_posts {
        Some(decimal(c.homepage_posts as nat))
    } else if a.date_format {
        Some(c.date_format@)
    } else if a.default_timezone {
        Some(c.default_timezone@)
    } else if a.theme {
        opt_view(c.theme)
    } else if a.search_asset_path {
        Some(c.search.asset_path@)
    } else {
        Some(c.search.default_language@)
    }
}

/// Answers a query for one configuration key.
pub fn config_query(args: &ConfigArgs, config: &Config) -> (r: Result<Option<String>, ConfigQueryIssue>)
    ensures
        keys_asked(*args) == 0 ==> r == Err::<Option<String>, ConfigQueryIssue>(ConfigQueryIssue::NoKey),
        keys_asked(*args) > 1 ==> r == Err::<Option<String>, ConfigQueryIssue>(ConfigQueryIssue::TooManyKeys),
        keys_asked(*args) == 1 ==> (r matches Ok(v) && opt_view(v) == query_value(*args, *config)),
{
    let flags: [bool; 8] = [
        args.base_url,
        args.title,
        args.homepage_posts,
        args.date_format,
        args.default_timezone,
        args.theme,
        args.search_asset_path,
        args.search_default_language,
    ];
    let mut count: usize = 0;
    for i in 0..8
        invariant
            count <= i,
            flags@ == seq![
                args.base_url,
                args.title,
                args.homepage_posts,
                args.date_format,
                args.default_timezone,
                args.theme,
                args.search_asset_path,
                args.search_default_language,
            ],
            count == flags_count(flags@, i as int),
    {
        if flags[i] {
            count = count + 1;
        }
    }
    assert(count == keys_asked(*args)) by {
        reveal_with_fuel(flags_count, 9);
    }
    if count == 0 {
        return Err(ConfigQueryIssue::NoKey);
    }
    if count > 1 {
        return Err(ConfigQueryIssue::TooManyKeys);
    }
    let value = if args.base_url {
        Some(config.base_url.clone())
    } else if args.title {
        crate::text::clone_opt(&config.title)
    } else if args.homepage_posts {
        let mut v: Vec<char> = Vec::new();
        push_decimal(&mut v, config.homepage_posts as u64);
        Some(string_of(&v))
    } else if args.date_format {
        Some(config.date_format.clone())
    } else if args.default_timezone {
        Some(config.default_timezone.clone())
    } else if args.theme {
        crate::text::clone_opt(&config.theme)
    } else if args.search_asset_path {
        Some(config.search.asset_path.clone())
    } else {
        Some(config.search.default_language.clone())
    };
    Ok(value)
}

/// How many of the first `i` flags are set.
pub open spec fn flags_count(flags: Seq<bool>, i: int) -> nat
    decreases i,
{
    if i <= 0 {
        0
    } else {
        flags_count(flags, i - 1) + if flags[i - 1] {
            1nat
        } else {
            0nat
        }
    }
}

/// A query for a single key answers that key's configured value: the base
/// URL, the title, the homepage post count in decimal, the date format, the
/// default timezone, the theme, the search asset path or the search default
/// language.
pub proof fn each_query_answers_its_key(a: ConfigArgs, c: Config)
    requires
        keys_asked(a) == 1,
    ensures
        a.base_url ==> query_value(a, c) == Some(c.base_url@),
        a.title ==> query_value(a, c) == opt_view(c.title),
        a.homepage_posts ==> query_value(a, c) == Some(decimal(c.homepage_posts as nat)),
        a.date_format ==> query_value(a, c) == Some(c.date_format@),
        a.default_timezone ==> query_value(a, c) == Some(c.default_timezone@),
        a.theme ==> query_value(a, c) == opt_view(c.theme),
        a.search_asset_path ==> query_value(a, c) == Some(c.search.asset_path@),
        a.search_default_language ==> query_value(a, c) == Some(c.search.default_language@),
{
}

} // verus!
