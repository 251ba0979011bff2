//! Markdown rendering with comrak: the HTML of a post body, and its excerpt,
//! read from the parsed document: the text of its first paragraph, or of the
//! whole document where it has none.

use vstd::prelude::*;

use comrak::arena_tree::NodeEdge::{End, Start};
use comrak::nodes::NodeValue::{Code, CodeBlock, LineBreak, Paragraph, SoftBreak, Text};
use comrak::{parse_document, Arena, Options};

use crate::content::{truncate, truncate_spec, EXCERPT_LIMIT};
use crate::text::{extend_str, string_of, trim, trim_chars};

verus! {

/// One step of a walk through a parsed Markdown document, in document
/// order: a node opens (with what its text depends on), or the innermost
/// open node closes. Every node opens and closes, leaves included.
pub enum MdEvent {
    /// Plain text.
    Text(String),
    /// Inline code.
    Code(String),
    /// A soft or hard line break.
    Break,
    /// A code block and its literal text.
    CodeBlock(String),
    /// A paragraph.
    Paragraph,
    /// Any other node (the document, a heading, a list, emphasis, ...).
    Container,
    /// The innermost open node ends.
    Close,
}

/// The HTML comrak writes for a Markdown text with the site's options.
pub uninterp spec fn comrak_html(markdown: Seq<char>) -> Seq<char>;

/// The walk through the document comrak parses from a Markdown text with
/// the site's options.
pub uninterp spec fn comrak_events(markdown: Seq<char>) -> Seq<MdEvent>;

/// Calls `comrak::markdown_to_html` with the site's options: tables,
/// autolinks, task lists, strikethrough, footnotes, alerts and shortcodes;
/// raw HTML kept, code languages on `<pre>`, images with captions as
/// figures, no line wrapping. Claims only that the HTML is a function of the
/// text.
#[verifier::external_body]
fn comrak_to_html(markdown: &str) -> (r: String)
    ensures
        r@ == comrak_html(markdown@),
{
    let mut o = Options::default();
    let e = &mut o.extension;
    (e.table, e.autolink, e.tasklist, e.strikethrough, e.footnotes, e.alerts, e.shortcodes) = (true, true, true, true, true, true, true);
    let rd = &mut o.render;
    (rd.hardbreaks, rd.github_pre_lang, rd.unsafe_, rd.figure_with_caption, rd.width) = (false, true, true, true, 0);
    comrak::markdown_to_html(markdown, &o)
}

/// Calls `comrak::parse_document` with the site's parsing options (those of
/// `comrak_to_html`) and walks the result with `traverse`, writing each edge
/// as an event: `End` as `Close`, `Start` by the node's kind, moving its
/// literal text. Claims only that the walk is a function of the text.
#[verifier::external_body]
fn comrak_walk(markdown: &str) -> (r: Vec<MdEvent>)
    ensures
        r@ == comrak_events(markdown@),
{
    let mut o = Options::default();
    let e = &mut o.extension;
    (e.table, e.autolink, e.tasklist, e.strikethrough, e.footnotes, e.alerts, e.shortcodes) = (true, true, true, true, true, true, true);
    let arena = Arena::new();
    parse_document(&arena, markdown, &o).traverse().map(|edge| match edge {
        End(_) => MdEvent::Close,
        Start(n) => match n.data.borrow().value.clone() {
            Text(t) => MdEvent::Text(t), Code(c) => MdEvent::Code(c.literal), SoftBreak | LineBreak => MdEvent::Break,
            Paragraph => MdEvent::Paragraph, CodeBlock(c) => MdEvent::CodeBlock(c.literal), _ => MdEvent::Container,
        },
    }).collect()
}

/// What an event adds to the text: text and code as written, a space for a
/// line break, a code block's text followed by a space, nothing otherwise.
pub open spec fn event_text(e: MdEvent) -> Seq<char> {
    match e {
        MdEvent::Text(t) => t@,
        MdEvent::Code(c) => c@,
        MdEvent::Break => seq![' '],
        MdEvent::CodeBlock(c) => c@.push(' '),
        _ => Seq::<char>::empty(),
    }
}

/// The text of a run of events, one after the other.
pub open spec fn events_text(es: Seq<MdEvent>) -> Seq<char>
    decreases es.len(),
{
    if es.len() == 0 {
        Seq::<char>::empty()
    } else {
        events_text(es.drop_last()) + event_text(es.last())
    }
}

/// How deep a walk is after the events `es`: opened minus closed nodes.
pub open spec fn depth(es: Seq<MdEvent>) -> int
    decreases es.len(),
{
    if es.len() == 0 {
        0
    } else {
        depth(es.drop_last()) + if es.last() is Close { -1int } else { 1int }
    }
}

/// Whether event `i` opens a paragraph at the top level of the document
/// (directly under the document node).
pub open spec fn top_paragraph(es: Seq<MdEvent>, i: int) -> bool {
    0 <= i < es.len() && es[i] is Paragraph && depth(es.take(i)) == 1
}

/// Whether event `i` opens the first top-level paragraph.
pub open spec fn first_top_paragraph(es: Seq<MdEvent>, i: int) -> bool {
    top_paragraph(es, i) && forall|j: int| 0 <= j < i ==> !top_paragraph(es, j)
}

/// The text of the events from `k` on, up to the close of a node that is
/// `level` levels up.
pub open spec fn span_text(es: Seq<MdEvent>, k: int, level: nat) -> Seq<char>
    decreases es.len() - k,
{
    if k < 0 || k >= es.len() {
        Seq::<char>::empty()
    } else if es[k] is Close {
        if level <= 1 {
            Seq::<char>::empty()
        } else {
            span_text(es, k + 1, (level - 1) as nat)
        }
    } else {
        event_text(es[k]) + span_text(es, k + 1, level + 1)
    }
}

/// The excerpt of a document: the trimmed text of its first top-level
/// paragraph, or of the whole document where there is none, cut to `limit`
/// characters.
pub open spec fn excerpt_spec(es: Seq<MdEvent>, limit: nat) -> Seq<char> {
    if exists|i: int| first_top_paragraph(es, i) {
        truncate_spec(trim(span_text(es, (choose|i: int| first_top_paragraph(es, i)) + 1, 1)), limit)
    } else {
        truncate_spec(trim(events_text(es)), limit)
    }
}

fn push_event_text(buf: &mut Vec<char>, e: &MdEvent)
    ensures
        final(buf)@ == old(buf)@ + event_text(*e),
{
    match e {
        MdEvent::Text(t) => extend_str(buf, t.as_str()),
        MdEvent::Code(c) => extend_str(buf, c.as_str()),
        MdEvent::Break => {
            buf.push(' ');
            assert(buf@ =~= old(buf)@ + event_text(*e));
        },
        MdEvent::CodeBlock(c) => {
            extend_str(buf, c.as_str());
            buf.push(' ');
            assert(buf@ =~= old(buf)@ + event_text(*e));
        },
        _ => {
            assert(buf@ =~= old(buf)@ + event_text(*e));
        },
    }
}

/// The trimmed text of a whole walk.
pub fn collect_text(events: &Vec<MdEvent>) -> (r: String)
    ensures
        r@ == trim(events_text(events@)),
{
    let mut buf: Vec<char> = Vec::new();
    let n = events.len();
    for i in 0..n
        invariant
            n == events@.len(),
            buf@ == events_text(events@.take(i as int)),
    {
        push_event_text(&mut buf, &events[i]);
        assert(events@.take(i + 1).drop_last() =~= events@.take(i as int));
    }
    assert(events@.take(n as int) =~= events@);
    string_of(&trim_chars(&buf))
}

/// The trimmed text of the node opened by event `open`.
fn node_text(events: &Vec<MdEvent>, open: usize) -> (r: String)
    requires
        open < events@.len(),
    ensures
        r@ == trim(span_text(events@, open + 1, 1)),
{
    let ghost es = events@;
    let mut buf: Vec<char> = Vec::new();
    let n = events.len();
    let mut k = open + 1;
    let mut level: usize = 1;
    while k < n
        invariant
            n == es.len(),
            es == events@,
            open < k <= n,
            level >= 1,
            level <= k,
            buf@ + span_text(es, k as int, level as nat) == span_text(es, open + 1, 1),
        decreases n - k,
    {
        let ghost before = buf@;
        match &events[k] {
            MdEvent::Close => {
                if level == 1 {
                    assert(span_text(es, k as int, 1) =~= Seq::<char>::empty());
                    assert(buf@ =~= span_text(es, open + 1, 1));
                    return string_of(&trim_chars(&buf));
                }
                level = level - 1;
            },
            _ => {
                push_event_text(&mut buf, &events[k]);
                assert(before + span_text(es, k as int, (level - 1) as nat + 1) =~= buf@ + span_text(
                    es,
                    k + 1,
                    level as nat + 1,
                ));
                level = level + 1;
            },
        }
        k = k + 1;
    }
    assert(span_text(es, k as int, level as nat) =~= Seq::<char>::empty());
    assert(buf@ =~= span_text(es, open + 1, 1));
    string_of(&trim_chars(&buf))
}

/// The excerpt of a walked document, cut to `limit` characters.
pub fn extract_excerpt(events: &Vec<MdEvent>, limit: usize) -> (r: String)
    ensures
        r@ == excerpt_spec(events@, limit as nat),
{
    let ghost es = events@;
    let n = events.len();
    let mut d: i128 = 0;
    for i in 0..n
        invariant
            n == es.len(),
            es == events@,
            d == depth(es.take(i as int)),
            -(i as int) <= d <= i,
            forall|j: int| 0 <= j < i ==> !top_paragraph(es, j),
    {
        let is_close = match &events[i] {
            MdEvent::Close => true,
            _ => false,
        };
        let is_paragraph = match &events[i] {
            MdEvent::Paragraph => true,
            _ => false,
        };
        if is_paragraph && d == 1 {
            assert(first_top_paragraph(es, i as int));
            let text = node_text(events, i);
            proof {
                let c = choose|k: int| first_top_paragraph(es, k);
                if c < i {
                    assert(!top_paragraph(es, c));
                } else if c > i {
                    assert(!top_paragraph(es, i as int));
                }
            }
            return truncate(text.as_str(), limit);
        }
        assert(es.take(i + 1).drop_last() =~= es.take(i as int));
        assert(es.take(i + 1).last() == es[i as int]);
        d = if is_close { d - 1 } else { d + 1 };
    }
    assert(!exists|k: int| first_top_paragraph(es, k)) by {
        if exists|k: int| first_top_paragraph(es, k) {
            let c = choose|k: int| first_top_paragraph(es, k);
            assert(top_paragraph(es, c));
        }
    }
    truncate(collect_text(events).as_str(), limit)
}

/// A rendered post body: its HTML and its excerpt.
pub struct MarkdownRender {
    pub html: String,
    pub excerpt: String,
}

/// Renders a Markdown post body: comrak's HTML with the site's options, and
/// the excerpt of the document comrak parses, cut to the excerpt limit.
pub fn render_markdown(markdown: &str) -> (r: MarkdownRender)
    ensures
        r.html@ == comrak_html(markdown@),
        r.excerpt@ == excerpt_spec(comrak_events(markdown@), EXCERPT_LIMIT as nat),
{
    let events = comrak_walk(markdown);
    let excerpt = extract_excerpt(&events, EXCERPT_LIMIT);
    let html = comrak_to_html(markdown);
    MarkdownRender { html, excerpt }
}

} // verus!
