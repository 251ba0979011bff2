//! `bckt init`: the starter configuration and where a theme comes from.

use vstd::prelude::*;

use crate::dev::split_url_spec_at;
use crate::text::{chars_of, lemma_replace_keeps_prefix, occurs_at, replace, replace_chars, string_of};

verus! {

/// A git reference of a theme repository.
#[derive(Clone, Debug)]
pub enum GithubReference {
    Tag(String),
    Branch(String),
}

/// The reference a theme is fetched at: the tag when one is given, else the
/// branch, else `main`.
pub fn select_reference(tag: Option<String>, branch: Option<String>) -> (r: GithubReference)
    ensures
        match tag {
            Some(t) => r matches GithubReference::Tag(x) && x@ == t@,
            None => match branch {
                Some(b) => r matches GithubReference::Branch(x) && x@ == b@,
                None => r matches GithubReference::Branch(x) && x@ == "main"@,
            },
        },
{
    match (tag, branch) {
        (Some(tag), _) => GithubReference::Tag(tag),
        (None, Some(branch)) => GithubReference::Branch(branch),
        (None, None) => GithubReference::Branch("main".to_owned()),
    }
}

/// Why a GitHub `owner/repo` specification was refused.
#[derive(Clone, Copy, Debug, PartialEq, Eq, Structural)]
pub enum RepoSpecIssue {
    /// There is no `/`.
    MissingRepository,
    /// The owner or the repository is empty.
    Invalid,
}

/// An `owner/repo` specification split at its first `/`.
pub open spec fn owner_repo_spec(spec: Seq<char>) -> Result<(Seq<char>, Seq<char>), RepoSpecIssue> {
    let (owner, rest) = split_url_spec_at(spec, '/');
    match rest {
        None => Err(RepoSpecIssue::MissingRepository),
        Some(repo) => if owner.len() == 0 || repo.len() == 0 {
            Err(RepoSpecIssue::Invalid)
        } else {
            Ok((owner, repo))
        },
    }
}

/// Splits a GitHub `owner/repo` specification.
pub fn split_owner_repo(spec: &str) -> (r: Result<(String, String), RepoSpecIssue>)
    ensures
        match r {
            Ok((o, p)) => owner_repo_spec(spec@) == Ok::<(Seq<char>, Seq<char>), RepoSpecIssue>((o@, p@)),
            Err(e) => owner_repo_spec(spec@) == Err::<(Seq<char>, Seq<char>), RepoSpecIssue>(e),
        },
{
    let (owner, rest) = crate::dev::split_once_str(spec, '/');
    match rest {
        None => Err(RepoSpecIssue::MissingRepository),
        Some(repo) => if chars_of(owner.as_str()).len() == 0 || chars_of(repo.as_str()).len() == 0 {
            Err(RepoSpecIssue::Invalid)
        } else {
            Ok((owner, repo))
        },
    }
}

/// The configuration a new project starts with, with `{theme}` standing
/// for the theme's name.
pub open spec fn config_template() -> Seq<char> {
    "title: \"My bckt Site\"\nbase_url: \"https://example.com\"\nhomepage_posts: 5\ndate_format: \"[year]-[month]-[day]\"\npaginate_tags: true\ndefault_timezone: \"+00:00\"\ntheme: {theme}\n"@
}

/// The starter configuration for a project using `theme_name`.
pub fn seed_configuration_text(theme_name: &str) -> (r: String)
    ensures
        r@ == replace(config_template(), "{theme}"@, theme_name@),
{
    let template = chars_of(
        "title: \"My bckt Site\"\nbase_url: \"https://example.com\"\nhomepage_posts: 5\ndate_format: \"[year]-[month]-[day]\"\npaginate_tags: true\ndefault_timezone: \"+00:00\"\ntheme: {theme}\n",
    );
    let pattern = chars_of("{theme}");
    proof {
        reveal_strlit("{theme}");
    }
    string_of(&replace_chars(&template, &pattern, &chars_of(theme_name)))
}

/// The starter configuration names the chosen theme on its last line, after
/// the fixed settings, whatever the theme's name.
pub proof fn starter_configuration_names_the_theme(theme_name: Seq<char>)
    ensures
        replace(config_template(), "{theme}"@, theme_name) == "title: \"My bckt Site\"\nbase_url: \"https://example.com\"\nhomepage_posts: 5\ndate_format: \"[year]-[month]-[day]\"\npaginate_tags: true\ndefault_timezone: \"+00:00\"\n"@
            + "theme: "@ + theme_name + "\n"@,
{
    let t = config_template();
    let p = "{theme}"@;
    let head = "title: \"My bckt Site\"\nbase_url: \"https://example.com\"\nhomepage_posts: 5\ndate_format: \"[year]-[month]-[day]\"\npaginate_tags: true\ndefault_timezone: \"+00:00\"\n"@;
    reveal_strlit("title: \"My bckt Site\"\nbase_url: \"https://example.com\"\nhomepage_posts: 5\ndate_format: \"[year]-[month]-[day]\"\npaginate_tags: true\ndefault_timezone: \"+00:00\"\ntheme: {theme}\n");
    reveal_strlit("title: \"My bckt Site\"\nbase_url: \"https://example.com\"\nhomepage_posts: 5\ndate_format: \"[year]-[month]-[day]\"\npaginate_tags: true\ndefault_timezone: \"+00:00\"\n");
    reveal_strlit("{theme}");
    reveal_strlit("theme: ");
    reveal_strlit("\n");
    let m = t.len() - 8;
    assert(t =~= head + "theme: "@ + p + "\n"@);
    assert forall|j: int| 0 <= j < m implies !occurs_at(t, p, j) by {
        if occurs_at(t, p, j) {
            assert(t.subrange(j, j + 7)[0] == t[j]);
        }
    }
    lemma_replace_keeps_prefix(t, p, theme_name, m);
    let rest = t.skip(m);
    assert(rest =~= p + "\n"@);
    assert(occurs_at(rest, p, 0)) by {
        assert(rest.subrange(0, 7) =~= p);
    }
    assert(rest.skip(7) =~= "\n"@);
    assert(replace("\n"@, p, theme_name) == "\n"@) by {
        assert(!occurs_at("\n"@, p, 0));
        assert("\n"@.drop_first() =~= Seq::<char>::empty());
        assert(replace(Seq::<char>::empty(), p, theme_name) == Seq::<char>::empty());
        assert(seq!["\n"@[0]] + Seq::<char>::empty() =~= "\n"@);
    }
    assert(t.take(m) =~= head + "theme: "@);
}

/// The starter post a new project gets.
pub open spec fn sample_post() -> Seq<char> {
    "---\ntitle: \"Hello From bckt\"\nslug: \"hello-from-bckt\"\ndate: \"2024-01-01T00:00:00Z\"\ntags:\n  - welcome\nabstract: \"Kick the tires on the generator.\"\nattached: []\nimages: []\n---\n\nThis is the starter post. Edit it or drop in your own content to get going.\n"@
}

/// The text of the starter post.
pub fn sample_post_text() -> (r: String)
    ensures
        r@ == sample_post(),
{
    "---\ntitle: \"Hello From bckt\"\nslug: \"hello-from-bckt\"\ndate: \"2024-01-01T00:00:00Z\"\ntags:\n  - welcome\nabstract: \"Kick the tires on the generator.\"\nattached: []\nimages: []\n---\n\nThis is the starter post. Edit it or drop in your own content to get going.\n".to_owned()
}

} // verus!
