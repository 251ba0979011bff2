//! A post file as a companion tool writes it and as the site generator
//! reads it back: the front matter block's lines, and the proof that
//! splitting a written document returns what was written.

use vstd::prelude::*;

use crate::content::{fence_from, front_matter_spec, lines_spec, strip_cr};
use crate::post::frontmatter::{
    attached_lines, head_spec, optional_line, render_spec, tags_line, yaml_quote_spec, quote_escape,
    quote_escape_char, FrontMatter,
};
use crate::text::{is_ws, join, split_on, string_views, trim, trim_end, trim_start};

verus! {

/// The lines `ls`, each ended by a line break.
pub open spec fn lines_text(ls: Seq<Seq<char>>) -> Seq<char>
    decreases ls.len(),
{
    if ls.len() == 0 {
        Seq::<char>::empty()
    } else {
        lines_text(ls.drop_last()) + ls.last() + seq!['\n']
    }
}

/// The line of an optional field, when its trimmed value is not blank.
pub open spec fn optional_lines(key: Seq<char>, value: Option<String>, quoted: bool) -> Seq<Seq<char>> {
    match value {
        Some(v) => if trim(v@).len() > 0 {
            seq![key + (if quoted { yaml_quote_spec(trim(v@)) } else { trim(v@) })]
        } else {
            Seq::<Seq<char>>::empty()
        },
        None => Seq::<Seq<char>>::empty(),
    }
}

/// The `  - "path"` lines of the attachment list.
pub open spec fn attachment_lines(paths: Seq<Seq<char>>) -> Seq<Seq<char>> {
    paths.map_values(|p: Seq<char>| "  - "@ + yaml_quote_spec(p))
}

/// The title, slug and date lines.
pub open spec fn head_lines(fm: FrontMatter) -> Seq<Seq<char>> {
    (match fm.title {
        Some(t) => seq!["title: "@ + yaml_quote_spec(t@)],
        None => Seq::<Seq<char>>::empty(),
    }) + seq!["slug: "@ + fm.slug@, "date: "@ + yaml_quote_spec(fm.date@)]
}

/// The `tags:` line, when there are tags.
pub open spec fn tag_lines(tags: Seq<Seq<char>>) -> Seq<Seq<char>> {
    if tags.len() > 0 {
        seq!["tags: "@ + join(tags, ", "@)]
    } else {
        Seq::<Seq<char>>::empty()
    }
}

/// The lines of a front matter block between its two `---` delimiters.
pub open spec fn field_lines(fm: FrontMatter) -> Seq<Seq<char>> {
    head_lines(fm) + tag_lines(string_views(fm.tags@)) + optional_lines("type: "@, fm.post_type, false)
        + optional_lines("abstract: "@, fm.abstract_text, true) + optional_lines(
        "language: "@,
        fm.language,
        false,
    ) + seq!["attached:"@] + attachment_lines(string_views(fm.attached@))
}

/// Whether a text holds no line break: neither `\n` nor `\r`.
pub open spec fn single_line(s: Seq<char>) -> bool {
    !s.contains('\n') && !s.contains('\r')
}

/// Whether every field of a front matter block fits on one line.
pub open spec fn fields_single_line(fm: FrontMatter) -> bool {
    &&& (fm.title matches Some(t) ==> single_line(t@))
    &&& single_line(fm.slug@)
    &&& single_line(fm.date@)
    &&& forall|i: int| 0 <= i < fm.tags@.len() ==> single_line(#[trigger] fm.tags@[i]@)
    &&& (fm.post_type matches Some(t) ==> single_line(t@))
    &&& (fm.abstract_text matches Some(t) ==> single_line(t@))
    &&& (fm.language matches Some(t) ==> single_line(t@))
    &&& forall|i: int| 0 <= i < fm.attached@.len() ==> single_line(#[trigger] fm.attached@[i]@)
}

pub(crate) proof fn lemma_lines_text_concat(a: Seq<Seq<char>>, b: Seq<Seq<char>>)
    ensures
        lines_text(a + b) == lines_text(a) + lines_text(b),
    decreases b.len(),
{
    if b.len() == 0 {
        assert(a + b =~= a);
        assert(lines_text(a) + lines_text(b) =~= lines_text(a));
    } else {
        assert((a + b).drop_last() =~= a + b.drop_last());
        lemma_lines_text_concat(a, b.drop_last());
        assert(lines_text(a + b) =~= lines_text(a) + lines_text(b));
    }
}

pub(crate) proof fn lemma_lines_text_one(x: Seq<char>)
    ensures
        lines_text(seq![x]) == x + seq!['\n'],
{
    assert(seq![x].drop_last() =~= Seq::<Seq<char>>::empty());
    assert(lines_text(Seq::<Seq<char>>::empty()) == Seq::<char>::empty());
    assert(seq![x].last() == x);
    assert(lines_text(seq![x]) =~= x + seq!['\n']);
}

proof fn lemma_attached_text(paths: Seq<Seq<char>>)
    ensures
        attached_lines(paths) == lines_text(attachment_lines(paths)),
    decreases paths.len(),
{
    if paths.len() > 0 {
        lemma_attached_text(paths.drop_last());
        assert(attachment_lines(paths).drop_last() =~= attachment_lines(paths.drop_last()));
        assert(attached_lines(paths) =~= lines_text(attachment_lines(paths)));
    } else {
        assert(attachment_lines(paths) =~= Seq::<Seq<char>>::empty());
    }
}

proof fn lemma_optional_text(key: Seq<char>, value: Option<String>, quoted: bool)
    ensures
        optional_line(key, value, quoted) == lines_text(optional_lines(key, value, quoted)),
{
    match value {
        Some(v) => if trim(v@).len() > 0 {
            lemma_lines_text_one(key + (if quoted { yaml_quote_spec(trim(v@)) } else { trim(v@) }));
        },
        None => {},
    }
}

proof fn lemma_head_text(fm: FrontMatter)
    ensures
        lines_text(seq!["---"@] + head_lines(fm)) == head_spec(fm),
{
    let h = head_lines(fm);
    let d = seq!["---"@];
    reveal_strlit("---");
    reveal_strlit("---\n");
    lemma_lines_text_one("---"@);
    lemma_lines_text_one("slug: "@ + fm.slug@);
    lemma_lines_text_one("date: "@ + yaml_quote_spec(fm.date@));
    let sd = seq!["slug: "@ + fm.slug@, "date: "@ + yaml_quote_spec(fm.date@)];
    assert(sd =~= seq!["slug: "@ + fm.slug@] + seq!["date: "@ + yaml_quote_spec(fm.date@)]);
    lemma_lines_text_concat(seq!["slug: "@ + fm.slug@], seq!["date: "@ + yaml_quote_spec(fm.date@)]);
    lemma_lines_text_concat(d, h);
    match fm.title {
        Some(tt) => {
            lemma_lines_text_one("title: "@ + yaml_quote_spec(tt@));
            lemma_lines_text_concat(seq!["title: "@ + yaml_quote_spec(tt@)], sd);
            assert(h == seq!["title: "@ + yaml_quote_spec(tt@)] + sd);
        },
        None => {
            assert(h =~= sd);
        },
    }
    assert(lines_text(d + h) =~= head_spec(fm));
}

proof fn lemma_tail_text(fm: FrontMatter)
    ensures
        lines_text(seq!["attached:"@] + attachment_lines(string_views(fm.attached@)) + seq!["---"@])
            == "attached:\n"@ + attached_lines(string_views(fm.attached@)) + "---\n"@,
{
    let at = seq!["attached:"@];
    let al = attachment_lines(string_views(fm.attached@));
    let d = seq!["---"@];
    reveal_strlit("---");
    reveal_strlit("---\n");
    reveal_strlit("attached:");
    reveal_strlit("attached:\n");
    lemma_lines_text_one("---"@);
    lemma_lines_text_one("attached:"@);
    lemma_attached_text(string_views(fm.attached@));
    lemma_lines_text_concat(at, al);
    lemma_lines_text_concat(at + al, d);
    assert(lines_text(at + al + d) =~= "attached:\n"@ + attached_lines(string_views(fm.attached@)) + "---\n"@);
}

/// A front matter block is its delimiters around its field lines.
#[verifier::spinoff_prover]
#[verifier::rlimit(40)]
pub proof fn lemma_render_lines(fm: FrontMatter)
    ensures
        render_spec(fm) == lines_text(seq!["---"@] + field_lines(fm) + seq!["---"@]),
{
    let h = head_lines(fm);
    let t = tag_lines(string_views(fm.tags@));
    let o1 = optional_lines("type: "@, fm.post_type, false);
    let o2 = optional_lines("abstract: "@, fm.abstract_text, true);
    let o3 = optional_lines("language: "@, fm.language, false);
    let tail = seq!["attached:"@] + attachment_lines(string_views(fm.attached@)) + seq!["---"@];
    let d = seq!["---"@];
    lemma_head_text(fm);
    lemma_tail_text(fm);
    lemma_optional_text("type: "@, fm.post_type, false);
    lemma_optional_text("abstract: "@, fm.abstract_text, true);
    lemma_optional_text("language: "@, fm.language, false);
    if string_views(fm.tags@).len() > 0 {
        lemma_lines_text_one("tags: "@ + join(string_views(fm.tags@), ", "@));
    }
    assert(tags_line(string_views(fm.tags@)) == lines_text(t));
    assert(d + field_lines(fm) + d =~= (d + h) + t + o1 + o2 + o3 + tail);
    lemma_lines_text_concat(d + h, t);
    lemma_lines_text_concat(d + h + t, o1);
    lemma_lines_text_concat(d + h + t + o1, o2);
    lemma_lines_text_concat(d + h + t + o1 + o2, o3);
    lemma_lines_text_concat(d + h + t + o1 + o2 + o3, tail);
    assert(render_spec(fm) =~= lines_text((d + h) + t + o1 + o2 + o3 + tail));
}

proof fn lemma_split_single(f: Seq<char>)
    requires
        !f.contains('\n'),
    ensures
        split_on(f, '\n') == seq![f],
    decreases f.len(),
{
    if f.len() == 0 {
        assert(f =~= Seq::<char>::empty());
    } else {
        assert(!f.drop_last().contains('\n')) by {
            if f.drop_last().contains('\n') {
                let k = choose|k: int| 0 <= k < f.drop_last().len() && f.drop_last()[k] == '\n';
                assert(f[k] == '\n');
            }
        }
        lemma_split_single(f.drop_last());
        assert(f.last() != '\n') by {
            assert(f[f.len() - 1] == f.last());
        }
        assert(f.drop_last().push(f.last()) =~= f);
        assert(seq![f.drop_last()].update(0, f.drop_last().push(f.last())) =~= seq![f]);
    }
}

proof fn lemma_split_line(f: Seq<char>, s: Seq<char>)
    requires
        !f.contains('\n'),
    ensures
        split_on(f + seq!['\n'] + s, '\n') == seq![f] + split_on(s, '\n'),
    decreases s.len(),
{
    let w = f + seq!['\n'] + s;
    if s.len() == 0 {
        assert(w.drop_last() =~= f);
        assert(w.last() == '\n');
        lemma_split_single(f);
        assert(split_on(w, '\n') =~= seq![f] + split_on(s, '\n'));
    } else {
        lemma_split_line(f, s.drop_last());
        assert(w.drop_last() =~= f + seq!['\n'] + s.drop_last());
        assert(w.last() == s.last());
        crate::text::lemma_split_on_nonempty(s.drop_last(), '\n');
        let pre = split_on(s.drop_last(), '\n');
        if s.last() == '\n' {
            assert(split_on(w, '\n') =~= seq![f] + split_on(s, '\n'));
        } else {
            assert((seq![f] + pre).update((seq![f] + pre).len() - 1, (seq![f] + pre).last().push(s.last()))
                =~= seq![f] + pre.update(pre.len() - 1, pre.last().push(s.last())));
            assert(split_on(w, '\n') =~= seq![f] + split_on(s, '\n'));
        }
    }
}

proof fn lemma_split_lines(ls: Seq<Seq<char>>, s: Seq<char>)
    requires
        forall|i: int| 0 <= i < ls.len() ==> !(#[trigger] ls[i]).contains('\n'),
    ensures
        split_on(lines_text(ls) + s, '\n') == ls + split_on(s, '\n'),
    decreases ls.len(),
{
    if ls.len() == 0 {
        assert(lines_text(ls) + s =~= s);
        assert(ls + split_on(s, '\n') =~= split_on(s, '\n'));
    } else {
        let f = ls.last();
        assert(!f.contains('\n')) by {
            assert(ls[ls.len() - 1] == f);
        }
        assert forall|i: int| 0 <= i < ls.drop_last().len() implies !(#[trigger] ls.drop_last()[i]).contains('\n') by {
            assert(ls.drop_last()[i] == ls[i]);
        }
        lemma_split_lines(ls.drop_last(), f + seq!['\n'] + s);
        assert(lines_text(ls) + s =~= lines_text(ls.drop_last()) + (f + seq!['\n'] + s));
        lemma_split_line(f, s);
        assert(ls.drop_last() + (seq![f] + split_on(s, '\n')) =~= ls + split_on(s, '\n'));
    }
}

/// The lines of a document made of `ls`, a blank line and `body`: `ls`, the
/// blank line, then the body's lines.
pub(crate) proof fn lemma_document_lines(ls: Seq<Seq<char>>, body: Seq<char>)
    requires
        forall|i: int| 0 <= i < ls.len() ==> single_line(#[trigger] ls[i]),
    ensures
        lines_spec(lines_text(ls) + seq!['\n'] + body) == ls + seq![Seq::<char>::empty()] + lines_spec(body),
{
    assert forall|i: int| 0 <= i < ls.len() implies !(#[trigger] ls[i]).contains('\n') by {
        assert(single_line(ls[i]));
    }
    let doc = lines_text(ls) + seq!['\n'] + body;
    lemma_split_lines(ls, seq!['\n'] + body);
    assert(doc =~= lines_text(ls) + (seq!['\n'] + body));
    assert(seq!['\n'] + body =~= Seq::<char>::empty() + seq!['\n'] + body);
    lemma_split_line(Seq::<char>::empty(), body);
    let sb = split_on(body, '\n');
    crate::text::lemma_split_on_nonempty(body, '\n');
    let ps = split_on(doc, '\n');
    assert(ps =~= ls + seq![Seq::<char>::empty()] + sb);
    let n = ps.len();
    let m = ls.len();
    assert(ps.last() == sb.last());
    let lb = lines_spec(body);
    let expected = ls + seq![Seq::<char>::empty()] + lb;
    let got = lines_spec(doc);
    assert(got.len() == expected.len());
    assert forall|i: int| 0 <= i < got.len() implies got[i] == expected[i] by {
        if i < m {
            assert(ps[i] == ls[i]);
            assert(single_line(ls[i]));
            if ls[i].len() > 0 {
                assert(ls[i].last() != '\r') by {
                    assert(ls[i][ls[i].len() - 1] == ls[i].last());
                }
            }
            assert(strip_cr(ls[i]) == ls[i]);
        } else if i == m {
            assert(ps[i] == Seq::<char>::empty());
        } else {
            let j = i - m - 1;
            assert(ps[i] == sb[j]);
        }
    }
    assert(got =~= expected);
}

pub(crate) proof fn lemma_fence_at(ls: Seq<Seq<char>>, i: int, j: int)
    requires
        0 <= i <= j < ls.len(),
        forall|m: int| i <= m < j ==> trim(#[trigger] ls[m]) != "---"@,
        trim(ls[j]) == "---"@,
    ensures
        fence_from(ls, i) == Some(j),
    decreases j - i,
{
    if i < j {
        lemma_fence_at(ls, i + 1, j);
    }
}

pub(crate) proof fn lemma_join_after_blank(xs: Seq<Seq<char>>)
    ensures
        join(seq![Seq::<char>::empty()] + xs, seq!['\n']) == (if xs.len() == 0 {
            Seq::<char>::empty()
        } else {
            seq!['\n'] + join(xs, seq!['\n'])
        }),
    decreases xs.len(),
{
    let e = Seq::<char>::empty();
    if xs.len() == 0 {
        assert(seq![e] + xs =~= seq![e]);
    } else {
        lemma_join_after_blank(xs.drop_last());
        assert((seq![e] + xs).drop_last() =~= seq![e] + xs.drop_last());
        assert((seq![e] + xs).last() == xs.last());
        if xs.len() == 1 {
            assert(xs.drop_last() =~= Seq::<Seq<char>>::empty());
            assert(join(seq![e] + xs, seq!['\n']) =~= seq!['\n'] + join(xs, seq!['\n']));
        } else {
            assert(join(seq![e] + xs, seq!['\n']) =~= seq!['\n'] + join(xs, seq!['\n']));
        }
    }
}

proof fn lemma_trim_end_prefix(s: Seq<char>)
    ensures
        trim_end(s).len() <= s.len(),
        trim_end(s) == s.take(trim_end(s).len() as int),
    decreases s.len(),
{
    if s.len() > 0 && is_ws(s.last()) {
        lemma_trim_end_prefix(s.drop_last());
        assert(s.drop_last().take(trim_end(s).len() as int) =~= s.take(trim_end(s).len() as int));
    } else {
        assert(s.take(s.len() as int) =~= s);
    }
}

proof fn lemma_trim_start_suffix(s: Seq<char>)
    ensures
        trim_start(s).len() <= s.len(),
        trim_start(s) == s.skip(s.len() - trim_start(s).len()),
    decreases s.len(),
{
    if s.len() > 0 && is_ws(s[0]) {
        lemma_trim_start_suffix(s.drop_first());
        assert(s.drop_first().skip(s.drop_first().len() - trim_start(s).len()) =~= s.skip(
            s.len() - trim_start(s).len(),
        ));
    } else {
        assert(s.skip(0) =~= s);
    }
}

proof fn lemma_trim_keeps_chars(s: Seq<char>, c: char)
    ensures
        trim(s).contains(c) ==> s.contains(c),
{
    lemma_trim_start_suffix(s);
    lemma_trim_end_prefix(trim_start(s));
    if trim(s).contains(c) {
        let k = choose|k: int| 0 <= k < trim(s).len() && trim(s)[k] == c;
        let off = s.len() - trim_start(s).len();
        assert(trim(s)[k] == trim_start(s)[k]);
        assert(trim_start(s)[k] == s[off + k]);
    }
}

/// The trimmed form of a line that starts with a character other than
/// whitespace and `-` is no `---` delimiter.
proof fn lemma_plain_not_fence(l: Seq<char>)
    requires
        l.len() > 0,
        !is_ws(l[0]),
        l[0] != '-',
    ensures
        trim(l) != "---"@,
{
    reveal_strlit("---");
    assert(trim_start(l) == l);
    lemma_trim_end_prefix(l);
    if trim(l) == "---"@ {
        assert(trim(l)[0] == l[0]);
    }
}

/// An attachment line trims to `- ...`, which is no `---` delimiter.
pub(crate) proof fn lemma_item_not_fence(q: Seq<char>)
    ensures
        trim("  - "@ + q) != "---"@,
{
    reveal_strlit("---");
    reveal_strlit("  - ");
    let l = "  - "@ + q;
    assert(l[0] == ' ' && is_ws(l[0]));
    assert(l.drop_first()[0] == ' ');
    assert(l.drop_first().drop_first() =~= "- "@ + q) by {
        reveal_strlit("- ");
    }
    let r = l.drop_first().drop_first();
    assert(r[0] == '-' && !is_ws(r[0]));
    assert(trim_start(l.drop_first()) == trim_start(r));
    assert(trim_start(l) == r);
    lemma_trim_end_prefix(r);
    if trim(l) == "---"@ {
        assert(trim(l)[1] == r[1]);
        assert(r[1] == ' ');
    }
}

pub(crate) proof fn lemma_concat_single(a: Seq<char>, b: Seq<char>)
    requires
        single_line(a),
        single_line(b),
    ensures
        single_line(a + b),
{
    assert forall|c: char| (c == '\n' || c == '\r') implies !(a + b).contains(c) by {
        if (a + b).contains(c) {
            let k = choose|k: int| 0 <= k < (a + b).len() && (a + b)[k] == c;
            if k < a.len() {
                assert(a[k] == c);
            } else {
                assert(b[k - a.len()] == c);
            }
        }
    }
}

proof fn lemma_quote_single(s: Seq<char>)
    requires
        single_line(s),
    ensures
        single_line(quote_escape(s)),
        single_line(yaml_quote_spec(s)),
    decreases s.len(),
{
    if s.len() > 0 {
        assert(single_line(s.drop_last())) by {
            assert forall|c: char| (c == '\n' || c == '\r') implies !s.drop_last().contains(c) by {
                if s.drop_last().contains(c) {
                    let k = choose|k: int| 0 <= k < s.drop_last().len() && s.drop_last()[k] == c;
                    assert(s[k] == c);
                }
            }
        }
        lemma_quote_single(s.drop_last());
        let c = s.last();
        assert(c != '\n' && c != '\r') by {
            assert(s[s.len() - 1] == c);
        }
        assert(single_line(quote_escape_char(c)));
        lemma_concat_single(quote_escape(s.drop_last()), quote_escape_char(c));
    } else {
        assert(quote_escape(s) =~= Seq::<char>::empty());
    }
    assert(single_line(seq!['"']));
    lemma_concat_single(seq!['"'], quote_escape(s));
    lemma_concat_single(seq!['"'] + quote_escape(s), seq!['"']);
}

proof fn lemma_trim_single(s: Seq<char>)
    requires
        single_line(s),
    ensures
        single_line(trim(s)),
{
    lemma_trim_keeps_chars(s, '\n');
    lemma_trim_keeps_chars(s, '\r');
}

proof fn lemma_join_single(ps: Seq<Seq<char>>, sep: Seq<char>)
    requires
        forall|i: int| 0 <= i < ps.len() ==> single_line(#[trigger] ps[i]),
        single_line(sep),
    ensures
        single_line(join(ps, sep)),
    decreases ps.len(),
{
    if ps.len() == 0 {
        assert(!Seq::<char>::empty().contains('\n'));
        assert(!Seq::<char>::empty().contains('\r'));
    } else if ps.len() == 1 {
        assert(single_line(ps[0]));
    } else {
        assert forall|i: int| 0 <= i < ps.drop_last().len() implies single_line(#[trigger] ps.drop_last()[i]) by {
            assert(ps.drop_last()[i] == ps[i]);
        }
        lemma_join_single(ps.drop_last(), sep);
        assert(single_line(ps.last())) by {
            assert(ps[ps.len() - 1] == ps.last());
        }
        lemma_concat_single(join(ps.drop_last(), sep), sep);
        lemma_concat_single(join(ps.drop_last(), sep) + sep, ps.last());
    }
}

/// A line that fits on one line and is no `---` delimiter.
pub open spec fn plain_line(l: Seq<char>) -> bool {
    single_line(l) && trim(l) != "---"@
}

pub(crate) proof fn lemma_keyed_line(key: Seq<char>, rest: Seq<char>)
    requires
        single_line(key),
        single_line(rest),
        key.len() > 0,
        !is_ws(key[0]),
        key[0] != '-',
    ensures
        plain_line(key + rest),
{
    lemma_concat_single(key, rest);
    assert((key + rest)[0] == key[0]);
    lemma_plain_not_fence(key + rest);
}

pub(crate) proof fn lemma_plain_concat(a: Seq<Seq<char>>, b: Seq<Seq<char>>)
    requires
        forall|i: int| 0 <= i < a.len() ==> plain_line(#[trigger] a[i]),
        forall|i: int| 0 <= i < b.len() ==> plain_line(#[trigger] b[i]),
    ensures
        forall|i: int| 0 <= i < (a + b).len() ==> plain_line(#[trigger] (a + b)[i]),
{
    assert forall|i: int| 0 <= i < (a + b).len() implies plain_line(#[trigger] (a + b)[i]) by {
        if i < a.len() {
            assert((a + b)[i] == a[i]);
        } else {
            assert((a + b)[i] == b[i - a.len()]);
        }
    }
}

proof fn lemma_optional_plain(key: Seq<char>, value: Option<String>, quoted: bool)
    requires
        single_line(key),
        key.len() > 0,
        !is_ws(key[0]),
        key[0] != '-',
        value matches Some(v) ==> single_line(v@),
    ensures
        forall|i: int| 0 <= i < optional_lines(key, value, quoted).len() ==> plain_line(
            #[trigger] optional_lines(key, value, quoted)[i],
        ),
{
    match value {
        Some(v) => if trim(v@).len() > 0 {
            lemma_trim_single(v@);
            if quoted {
                lemma_quote_single(trim(v@));
                lemma_keyed_line(key, yaml_quote_spec(trim(v@)));
            } else {
                lemma_keyed_line(key, trim(v@));
            }
        },
        None => {},
    }
}

proof fn lemma_field_lines_plain(fm: FrontMatter)
    requires
        fields_single_line(fm),
    ensures
        forall|i: int| 0 <= i < field_lines(fm).len() ==> plain_line(#[trigger] field_lines(fm)[i]),
{
    reveal_strlit("title: ");
    reveal_strlit("slug: ");
    reveal_strlit("date: ");
    reveal_strlit("tags: ");
    reveal_strlit("type: ");
    reveal_strlit("abstract: ");
    reveal_strlit("language: ");
    reveal_strlit("attached:");
    reveal_strlit(", ");
    let h = head_lines(fm);
    match fm.title {
        Some(t) => {
            lemma_quote_single(t@);
            lemma_keyed_line("title: "@, yaml_quote_spec(t@));
        },
        None => {},
    }
    lemma_keyed_line("slug: "@, fm.slug@);
    lemma_quote_single(fm.date@);
    lemma_keyed_line("date: "@, yaml_quote_spec(fm.date@));
    assert forall|i: int| 0 <= i < h.len() implies plain_line(#[trigger] h[i]) by {
        match fm.title {
            Some(t) => {
                if i == 0 {
                    assert(h[i] == "title: "@ + yaml_quote_spec(t@));
                } else if i == 1 {
                    assert(h[i] == "slug: "@ + fm.slug@);
                } else {
                    assert(h[i] == "date: "@ + yaml_quote_spec(fm.date@));
                }
            },
            None => {
                if i == 0 {
                    assert(h[i] == "slug: "@ + fm.slug@);
                } else {
                    assert(h[i] == "date: "@ + yaml_quote_spec(fm.date@));
                }
            },
        }
    }
    let tags = string_views(fm.tags@);
    let t = tag_lines(tags);
    if tags.len() > 0 {
        assert forall|i: int| 0 <= i < tags.len() implies single_line(#[trigger] tags[i]) by {
            assert(tags[i] == fm.tags@[i]@);
        }
        lemma_join_single(tags, ", "@);
        lemma_keyed_line("tags: "@, join(tags, ", "@));
    }
    assert forall|i: int| 0 <= i < t.len() implies plain_line(#[trigger] t[i]) by {
        assert(t[i] == "tags: "@ + join(tags, ", "@));
    }
    lemma_optional_plain("type: "@, fm.post_type, false);
    lemma_optional_plain("abstract: "@, fm.abstract_text, true);
    lemma_optional_plain("language: "@, fm.language, false);
    let at = seq!["attached:"@];
    lemma_keyed_line("attached:"@, Seq::<char>::empty());
    assert("attached:"@ + Seq::<char>::empty() =~= "attached:"@);
    assert forall|i: int| 0 <= i < at.len() implies plain_line(#[trigger] at[i]) by {}
    let paths = string_views(fm.attached@);
    let al = attachment_lines(paths);
    assert forall|i: int| 0 <= i < al.len() implies plain_line(#[trigger] al[i]) by {
        assert(paths[i] == fm.attached@[i]@);
        lemma_quote_single(paths[i]);
        reveal_strlit("  - ");
        assert(single_line("  - "@));
        lemma_concat_single("  - "@, yaml_quote_spec(paths[i]));
        lemma_item_not_fence(yaml_quote_spec(paths[i]));
    }
    let o1 = optional_lines("type: "@, fm.post_type, false);
    let o2 = optional_lines("abstract: "@, fm.abstract_text, true);
    let o3 = optional_lines("language: "@, fm.language, false);
    lemma_plain_concat(h, t);
    lemma_plain_concat(h + t, o1);
    lemma_plain_concat(h + t + o1, o2);
    lemma_plain_concat(h + t + o1 + o2, o3);
    lemma_plain_concat(h + t + o1 + o2 + o3, at);
    lemma_plain_concat(h + t + o1 + o2 + o3 + at, al);
}

pub(crate) proof fn lemma_fence_line()
    ensures
        trim("---"@) == "---"@,
        single_line("---"@),
{
    reveal_strlit("---");
    let d = "---"@;
    assert(!is_ws(d[0]) && !is_ws(d.last()));
    assert(trim_start(d) == d);
    assert(trim_end(d) == d);
}

proof fn lemma_split_pieces_chars(s: Seq<char>, c: char)
    requires
        !s.contains(c),
    ensures
        forall|i: int| 0 <= i < split_on(s, '\n').len() ==> !(#[trigger] split_on(s, '\n')[i]).contains(c),
    decreases s.len(),
{
    if s.len() > 0 {
        assert(!s.drop_last().contains(c)) by {
            if s.drop_last().contains(c) {
                let k = choose|k: int| 0 <= k < s.drop_last().len() && s.drop_last()[k] == c;
                assert(s[k] == c);
            }
        }
        lemma_split_pieces_chars(s.drop_last(), c);
        crate::text::lemma_split_on_nonempty(s.drop_last(), '\n');
        let pre = split_on(s.drop_last(), '\n');
        assert(s.last() != c) by {
            assert(s[s.len() - 1] == s.last());
        }
        if s.last() != '\n' {
            let last = pre.last().push(s.last());
            assert(!last.contains(c)) by {
                if last.contains(c) {
                    let k = choose|k: int| 0 <= k < last.len() && last[k] == c;
                    if k < pre.last().len() {
                        assert(pre.last()[k] == c);
                        assert(pre[pre.len() - 1] == pre.last());
                    }
                }
            }
        }
        assert forall|i: int| 0 <= i < split_on(s, '\n').len() implies !(#[trigger] split_on(s, '\n')[i]).contains(c) by {
            if i < pre.len() - 1 || (s.last() == '\n' && i < pre.len()) {
                assert(split_on(s, '\n')[i] == pre[i]);
            }
        }
    }
}

proof fn lemma_join_split(s: Seq<char>)
    ensures
        join(split_on(s, '\n'), seq!['\n']) == s,
    decreases s.len(),
{
    if s.len() > 0 {
        lemma_join_split(s.drop_last());
        crate::text::lemma_split_on_nonempty(s.drop_last(), '\n');
        let pre = split_on(s.drop_last(), '\n');
        if s.last() == '\n' {
            assert(split_on(s, '\n').drop_last() =~= pre);
            assert(join(split_on(s, '\n'), seq!['\n']) =~= s);
        } else {
            let ps = split_on(s, '\n');
            if pre.len() == 1 {
                assert(join(ps, seq!['\n']) =~= s);
            } else {
                assert(ps.drop_last() =~= pre.drop_last());
                assert(ps.last() == pre.last().push(s.last()));
                assert(join(pre, seq!['\n']) == join(pre.drop_last(), seq!['\n']) + seq!['\n'] + pre.last());
                assert(join(ps, seq!['\n']) == join(pre.drop_last(), seq!['\n']) + seq!['\n'] + ps.last());
                assert(s =~= s.drop_last().push(s.last()));
                assert(join(ps, seq!['\n']) =~= s);
            }
        }
    } else {
        assert(join(split_on(s, '\n'), seq!['\n']) =~= s);
    }
}

/// A body without carriage returns that does not end in a line break is
/// its own lines joined again.
pub proof fn lemma_body_lines(body: Seq<char>)
    requires
        !body.contains('\r'),
        body.len() == 0 || body.last() != '\n',
    ensures
        join(lines_spec(body), seq!['\n']) == body,
{
    let ps = split_on(body, '\n');
    crate::text::lemma_split_on_nonempty(body, '\n');
    if body.len() == 0 {
        assert(lines_spec(body) =~= Seq::<Seq<char>>::empty());
    } else {
        crate::text::lemma_split_on_nonempty(body.drop_last(), '\n');
        assert(ps.last().len() > 0);
        lemma_split_pieces_chars(body, '\r');
        assert forall|i: int| 0 <= i < ps.len() implies strip_cr(#[trigger] ps[i]) == ps[i] by {
            if ps[i].len() > 0 {
                assert(ps[i][ps[i].len() - 1] == ps[i].last());
            }
        }
        assert(lines_spec(body) =~= ps);
        lemma_join_split(body);
    }
}

/// A post file written from a front matter block and a body reads back:
/// splitting it returns the block's field lines and the lines of the body.
/// A body without carriage returns that does not end in a line break thus
/// comes back exactly (see `lemma_body_lines`). Every field must fit on one
/// line.
pub proof fn written_post_reads_back(fm: FrontMatter, body: Seq<char>)
    requires
        fields_single_line(fm),
    ensures
        front_matter_spec(render_spec(fm) + seq!['\n'] + body) == Ok::<(Seq<char>, Seq<char>), crate::content::FrontMatterIssue>(
            (join(field_lines(fm), seq!['\n']), join(lines_spec(body), seq!['\n'])),
        ),
{
    let f = field_lines(fm);
    let d = seq!["---"@];
    let all = d + f + d;
    lemma_render_lines(fm);
    lemma_field_lines_plain(fm);
    lemma_fence_line();
    assert forall|i: int| 0 <= i < all.len() implies single_line(#[trigger] all[i]) by {
        if i == 0 || i == all.len() - 1 {
            assert(all[i] == "---"@);
        } else {
            assert(all[i] == f[i - 1]);
        }
    }
    lemma_document_lines(all, body);
    let lb = lines_spec(body);
    let ls = all + seq![Seq::<char>::empty()] + lb;
    assert(lines_spec(render_spec(fm) + seq!['\n'] + body) == ls);
    let j: int = f.len() as int + 1;
    assert(ls[0] == "---"@);
    assert(ls[j] == "---"@);
    assert forall|m: int| 1 <= m < j implies trim(#[trigger] ls[m]) != "---"@ by {
        assert(ls[m] == f[m - 1]);
    }
    lemma_fence_at(ls, 1, j);
    assert(ls.subrange(1, j) =~= f);
    assert(ls.skip(j + 1) =~= seq![Seq::<char>::empty()] + lb);
    lemma_join_after_blank(lb);
    let joined = join(ls.skip(j + 1), seq!['\n']);
    if lb.len() > 0 {
        assert(joined[0] == '\n');
        assert(joined.drop_first() =~= join(lb, seq!['\n']));
    } else {
        assert(joined.len() == 0);
        assert(join(lb, seq!['\n']) =~= Seq::<char>::empty());
    }
}

} // verus!
