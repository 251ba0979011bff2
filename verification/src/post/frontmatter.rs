//! A post's YAML front matter block.

use vstd::prelude::*;

use crate::text::{chars_of, extend_chars, extend_str, join, join_strings, string_of, string_views, trim, trim_chars};

verus! {

/// A post's YAML front matter block.
///
/// Field order is fixed so that generated posts stay diff-stable across tools.
#[derive(Debug, Clone)]
pub struct FrontMatter {
    pub title: Option<String>,
    pub slug: String,
    pub date: String,
    pub tags: Vec<String>,
    pub post_type: Option<String>,
    pub abstract_text: Option<String>,
    pub language: Option<String>,
    pub attached: Vec<String>,
}

impl Default for FrontMatter {
    fn default() -> (r: Self)
        ensures
            r.title is None,
            r.slug@.len() == 0,
            r.date@.len() == 0,
            r.tags@.len() == 0,
            r.post_type is None,
            r.abstract_text is None,
            r.language is None,
            r.attached@.len() == 0,
    {
        FrontMatter {
            title: None,
            slug: String::new(),
            date: String::new(),
            tags: Vec::new(),
            post_type: None,
            abstract_text: None,
            language: None,
            attached: Vec::new(),
        }
    }
}

/// The escaped form of one character inside double quotes.
pub open spec fn quote_escape_char(c: char) -> Seq<char> {
    if c == '\\' {
        seq!['\\', '\\']
    } else if c == '"' {
        seq!['\\', '"']
    } else {
        seq![c]
    }
}

/// Backslashes and double quotes escaped with a backslash.
pub open spec fn quote_escape(s: Seq<char>) -> Seq<char>
    decreases s.len(),
{
    if s.len() == 0 {
        Seq::<char>::empty()
    } else {
        quote_escape(s.drop_last()) + quote_escape_char(s.last())
    }
}

/// `value` in double quotes, with backslashes and quotes escaped.
pub open spec fn yaml_quote_spec(s: Seq<char>) -> Seq<char> {
    seq!['"'] + quote_escape(s) + seq!['"']
}

fn push_quoted(out: &mut Vec<char>, value: &Vec<char>)
    ensures
        final(out)@ == old(out)@ + yaml_quote_spec(value@),
{
    out.push('"');
    let n = value.len();
    let ghost start = out@;
    assert(value@.take(0) =~= Seq::<char>::empty());
    for i in 0..n
        invariant
            n == value@.len(),
            out@ == start + quote_escape(value@.take(i as int)),
    {
        let ghost t1 = value@.take(i + 1);
        assert(t1.drop_last() =~= value@.take(i as int));
        let c = value[i];
        if c == '\\' {
            out.push('\\');
            out.push('\\');
        } else if c == '"' {
            out.push('\\');
            out.push('"');
        } else {
            out.push(c);
        }
        assert(out@ =~= start + quote_escape(t1));
    }
    assert(value@.take(n as int) =~= value@);
    out.push('"');
    assert(final(out)@ =~= old(out)@ + yaml_quote_spec(value@)) by {
        assert(out@ =~= old(out)@ + yaml_quote_spec(value@));
    }
}

/// Wraps a value in double quotes, escaping backslashes and quotes.
pub fn yaml_quote(value: &str) -> (r: String)
    ensures
        r@ == yaml_quote_spec(value@),
{
    let mut out: Vec<char> = Vec::new();
    push_quoted(&mut out, &chars_of(value));
    assert(out@ =~= yaml_quote_spec(value@));
    string_of(&out)
}

/// A `key: value` line for an optional field that is emitted when its trimmed
/// value is not blank.
pub open spec fn optional_line(key: Seq<char>, value: Option<String>, quoted: bool) -> Seq<char> {
    match value {
        Some(v) => if trim(v@).len() > 0 {
            key + (if quoted {
                yaml_quote_spec(trim(v@))
            } else {
                trim(v@)
            }) + seq!['\n']
        } else {
            Seq::<char>::empty()
        },
        None => Seq::<char>::empty(),
    }
}

/// The `  - "path"` lines of the attachment list.
pub open spec fn attached_lines(paths: Seq<Seq<char>>) -> Seq<char>
    decreases paths.len(),
{
    if paths.len() == 0 {
        Seq::<char>::empty()
    } else {
        attached_lines(paths.drop_last()) + "  - "@ + yaml_quote_spec(paths.last()) + seq!['\n']
    }
}

/// The opening delimiter and the title, slug and date lines.
pub open spec fn head_spec(fm: FrontMatter) -> Seq<char> {
    "---\n"@
    + (match fm.title {
        Some(t) => "title: "@ + yaml_quote_spec(t@) + seq!['\n'],
        None => Seq::<char>::empty(),
    })
    + "slug: "@ + fm.slug@ + seq!['\n']
    + "date: "@ + yaml_quote_spec(fm.date@) + seq!['\n']
}

/// The `tags:` line, present when there are tags.
pub open spec fn tags_line(tags: Seq<Seq<char>>) -> Seq<char> {
    if tags.len() > 0 {
        "tags: "@ + join(tags, ", "@) + seq!['\n']
    } else {
        Seq::<char>::empty()
    }
}

/// The rendered block, delimiters included.
pub open spec fn render_spec(fm: FrontMatter) -> Seq<char> {
    head_spec(fm)
    + tags_line(string_views(fm.tags@))
    + optional_line("type: "@, fm.post_type, false)
    + optional_line("abstract: "@, fm.abstract_text, true)
    + optional_line("language: "@, fm.language, false)
    + "attached:\n"@
    + attached_lines(string_views(fm.attached@))
    + "---\n"@
}

fn push_head(out: &mut Vec<char>, fm: &FrontMatter)
    ensures
        final(out)@ == old(out)@ + head_spec(*fm),
{
    extend_str(out, "---\n");
    match &fm.title {
        Some(title) => {
            extend_str(out, "title: ");
            push_quoted(out, &chars_of(title.as_str()));
            out.push('\n');
        },
        None => {},
    }
    extend_str(out, "slug: ");
    extend_str(out, fm.slug.as_str());
    out.push('\n');
    extend_str(out, "date: ");
    push_quoted(out, &chars_of(fm.date.as_str()));
    out.push('\n');
    assert(out@ =~= old(out)@ + head_spec(*fm));
}

fn push_tags(out: &mut Vec<char>, tags: &Vec<String>)
    ensures
        final(out)@ == old(out)@ + tags_line(string_views(tags@)),
{
    if tags.len() > 0 {
        extend_str(out, "tags: ");
        let joined = join_strings(tags, ", ");
        extend_chars(out, &joined);
        out.push('\n');
    }
    assert(out@ =~= old(out)@ + tags_line(string_views(tags@)));
}

fn push_attached(out: &mut Vec<char>, attached: &Vec<String>)
    ensures
        final(out)@ == old(out)@ + attached_lines(string_views(attached@)),
{
    let n = attached.len();
    assert(string_views(attached@).take(0) =~= Seq::<Seq<char>>::empty());
    assert(out@ =~= old(out)@ + attached_lines(string_views(attached@).take(0)));
    for i in 0..n
        invariant
            n == attached@.len(),
            out@ == old(out)@ + attached_lines(string_views(attached@).take(i as int)),
    {
        let ghost t1 = string_views(attached@).take(i + 1);
        assert(t1.drop_last() =~= string_views(attached@).take(i as int));
        assert(t1.last() == attached@[i as int]@);
        extend_str(out, "  - ");
        push_quoted(out, &chars_of(attached[i].as_str()));
        out.push('\n');
        assert(out@ =~= old(out)@ + attached_lines(t1));
    }
    assert(string_views(attached@).take(n as int) =~= string_views(attached@));
}

fn push_optional(out: &mut Vec<char>, key: &str, value: &Option<String>, quoted: bool)
    ensures
        final(out)@ == old(out)@ + optional_line(key@, *value, quoted),
{
    match value {
        Some(v) => {
            let t = trim_chars(&chars_of(v.as_str()));
            if t.len() > 0 {
                extend_str(out, key);
                if quoted {
                    push_quoted(out, &t);
                } else {
                    extend_chars(out, &t);
                }
                out.push('\n');
                assert(out@ =~= old(out)@ + optional_line(key@, *value, quoted));
            } else {
                assert(out@ =~= old(out)@ + optional_line(key@, *value, quoted));
            }
        },
        None => {
            assert(out@ =~= old(out)@ + optional_line(key@, *value, quoted));
        },
    }
}

impl FrontMatter {
    /// A front matter block with the given slug and date and nothing else.
    pub fn new(slug: &str, date: &str) -> (r: Self)
        ensures
            r.title is None,
            r.slug@ == slug@,
            r.date@ == date@,
            r.tags@.len() == 0,
            r.post_type is None,
            r.abstract_text is None,
            r.language is None,
            r.attached@.len() == 0,
    {
        FrontMatter {
            title: None,
            slug: string_of(&chars_of(slug)),
            date: string_of(&chars_of(date)),
            tags: Vec::new(),
            post_type: None,
            abstract_text: None,
            language: None,
            attached: Vec::new(),
        }
    }

    fn render_chars(&self) -> (r: Vec<char>)
        ensures
            r@ == render_spec(*self),
    {
        let mut fm: Vec<char> = Vec::new();
        push_head(&mut fm, self);
        push_tags(&mut fm, &self.tags);
        push_optional(&mut fm, "type: ", &self.post_type, false);
        push_optional(&mut fm, "abstract: ", &self.abstract_text, true);
        push_optional(&mut fm, "language: ", &self.language, false);
        extend_str(&mut fm, "attached:\n");
        push_attached(&mut fm, &self.attached);
        extend_str(&mut fm, "---\n");
        assert(fm@ =~= render_spec(*self));
        fm
    }

    /// Renders the block, delimiters included, ending with a trailing newline.
    pub fn render(&self) -> (r: String)
        ensures
            r@ == render_spec(*self),
    {
        string_of(&self.render_chars())
    }

    /// Renders the block followed by a blank line and `body`.
    pub fn into_document(&self, body: &str) -> (r: String)
        ensures
            r@ == render_spec(*self) + seq!['\n'] + body@,
    {
        let mut doc = self.render_chars();
        doc.push('\n');
        extend_str(&mut doc, body);
        string_of(&doc)
    }
}

} // verus!
