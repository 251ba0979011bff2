//! The strftime-style patterns of the `format_date` template filter.

use vstd::prelude::*;

use crate::text::chars_of;

verus! {

/// One element of a date format: a literal run of text or a date component.
#[derive(Clone, Debug, PartialEq, Eq)]
pub enum FormatItem {
    Literal(Vec<char>),
    /// `%Y`: the full year.
    Year,
    /// `%y`: the last two digits of the year.
    YearLastTwo,
    /// `%m`: the month number, two digits.
    Month,
    /// `%b`: the short month name.
    MonthShort,
    /// `%B`: the full month name.
    MonthLong,
    /// `%d`: the day of the month, two digits.
    Day,
    /// `%H`: the hour on a 24-hour clock.
    Hour,
    /// `%I`: the hour on a 12-hour clock.
    Hour12,
    /// `%M`: the minute.
    Minute,
    /// `%S`: the second.
    Second,
    /// `%a`: the short weekday name.
    WeekdayShort,
    /// `%A`: the full weekday name.
    WeekdayLong,
    /// `%p`: `AM`/`PM`.
    PeriodUpper,
    /// `%P`: `am`/`pm`.
    PeriodLower,
    /// The hour of the UTC offset, with its sign.
    OffsetHourSigned,
    /// The minute of the UTC offset.
    OffsetMinute,
}

/// A format item as a specification sees it.
pub enum Item {
    Literal(Seq<char>),
    Year,
    YearLastTwo,
    Month,
    MonthShort,
    MonthLong,
    Day,
    Hour,
    Hour12,
    Minute,
    Second,
    WeekdayShort,
    WeekdayLong,
    PeriodUpper,
    PeriodLower,
    OffsetHourSigned,
    OffsetMinute,
}

impl View for FormatItem {
    type V = Item;

    open spec fn view(&self) -> Item {
        match self {
            FormatItem::Literal(v) => Item::Literal(v@),
            FormatItem::Year => Item::Year,
            FormatItem::YearLastTwo => Item::YearLastTwo,
            FormatItem::Month => Item::Month,
            FormatItem::MonthShort => Item::MonthShort,
            FormatItem::MonthLong => Item::MonthLong,
            FormatItem::Day => Item::Day,
            FormatItem::Hour => Item::Hour,
            FormatItem::Hour12 => Item::Hour12,
            FormatItem::Minute => Item::Minute,
            FormatItem::Second => Item::Second,
            FormatItem::WeekdayShort => Item::WeekdayShort,
            FormatItem::WeekdayLong => Item::WeekdayLong,
            FormatItem::PeriodUpper => Item::PeriodUpper,
            FormatItem::PeriodLower => Item::PeriodLower,
            FormatItem::OffsetHourSigned => Item::OffsetHourSigned,
            FormatItem::OffsetMinute => Item::OffsetMinute,
        }
    }
}

/// Why a pattern cannot be translated.
#[derive(Clone, Copy, Debug, PartialEq, Eq, Structural)]
pub enum PatternError {
    /// The pattern ends with a lone `%`.
    DanglingPercent,
    /// `%Z` (time zone names) is not supported.
    TimeZoneName,
    /// `%` followed by a character that is no directive.
    Unsupported(char),
}

/// The items that a directive letter stands for, or `None` when the letter is
/// no directive (`%` itself, which starts a literal, is handled apart).
pub open spec fn directive_items(code: char) -> Option<Seq<Item>> {
    if code == 'Y' {
        Some(seq![Item::Year])
    } else if code == 'y' {
        Some(seq![Item::YearLastTwo])
    } else if code == 'm' {
        Some(seq![Item::Month])
    } else if code == 'b' {
        Some(seq![Item::MonthShort])
    } else if code == 'B' {
        Some(seq![Item::MonthLong])
    } else if code == 'd' {
        Some(seq![Item::Day])
    } else if code == 'H' {
        Some(seq![Item::Hour])
    } else if code == 'I' {
        Some(seq![Item::Hour12])
    } else if code == 'M' {
        Some(seq![Item::Minute])
    } else if code == 'S' {
        Some(seq![Item::Second])
    } else if code == 'a' {
        Some(seq![Item::WeekdayShort])
    } else if code == 'A' {
        Some(seq![Item::WeekdayLong])
    } else if code == 'p' {
        Some(seq![Item::PeriodUpper])
    } else if code == 'P' {
        Some(seq![Item::PeriodLower])
    } else if code == 'R' {
        Some(seq![Item::Hour, Item::Literal(seq![':']), Item::Minute])
    } else if code == 'T' {
        Some(seq![Item::Hour, Item::Literal(seq![':']), Item::Minute, Item::Literal(seq![':']), Item::Second])
    } else if code == 'F' {
        Some(seq![Item::Year, Item::Literal(seq!['-']), Item::Month, Item::Literal(seq!['-']), Item::Day])
    } else if code == 'z' {
        Some(seq![Item::OffsetHourSigned, Item::OffsetMinute])
    } else {
        None
    }
}

/// A pending literal run as items: nothing when it is empty.
pub open spec fn flush(lit: Seq<char>) -> Seq<Item> {
    if lit.len() == 0 {
        Seq::<Item>::empty()
    } else {
        seq![Item::Literal(lit)]
    }
}

pub open spec fn prefixed(items: Seq<Item>, r: Result<Seq<Item>, PatternError>) -> Result<Seq<Item>, PatternError> {
    match r {
        Ok(rest) => Ok(items + rest),
        Err(e) => Err(e),
    }
}

/// The items of the pattern `s`, scanned from the left with `lit` as the
/// literal text read so far. Ordinary characters join the current literal run;
/// each `%` directive ends it. `%%` starts a new run with a `%`.
pub open spec fn translate_spec(s: Seq<char>, lit: Seq<char>) -> Result<Seq<Item>, PatternError>
    decreases s.len(),
{
    if s.len() == 0 {
        Ok(flush(lit))
    } else if s[0] != '%' {
        translate_spec(s.drop_first(), lit.push(s[0]))
    } else if s.len() == 1 {
        Err(PatternError::DanglingPercent)
    } else {
        let code = s[1];
        let rest = s.skip(2);
        if code == '%' {
            prefixed(flush(lit), translate_spec(rest, seq!['%']))
        } else if code == 'Z' {
            Err(PatternError::TimeZoneName)
        } else {
            match directive_items(code) {
                Some(items) => prefixed(flush(lit) + items, translate_spec(rest, Seq::<char>::empty())),
                None => Err(PatternError::Unsupported(code)),
            }
        }
    }
}

/// The items of a whole pattern.
pub open spec fn translate_strftime_spec(s: Seq<char>) -> Result<Seq<Item>, PatternError> {
    translate_spec(s, Seq::<char>::empty())
}

proof fn lemma_plain_run(s: Seq<char>, lit: Seq<char>)
    requires
        !s.contains('%'),
    ensures
        translate_spec(s, lit) == Ok::<Seq<Item>, PatternError>(flush(lit + s)),
    decreases s.len(),
{
    if s.len() == 0 {
        assert(lit + s =~= lit);
    } else {
        assert(s[0] != '%');
        assert(!s.drop_first().contains('%')) by {
            if s.drop_first().contains('%') {
                let k = choose|k: int| 0 <= k < s.drop_first().len() && s.drop_first()[k] == '%';
                assert(s[k + 1] == '%');
            }
        }
        lemma_plain_run(s.drop_first(), lit.push(s[0]));
        assert(lit.push(s[0]) + s.drop_first() =~= lit + s);
    }
}

/// Text outside directives is copied unchanged: a run of characters
/// without `%` joins the literal being read, wherever in the pattern it
/// stands, and what follows is read as before.
pub proof fn strftime_copies_literal_runs(plain: Seq<char>, rest: Seq<char>, lit: Seq<char>)
    requires
        !plain.contains('%'),
    ensures
        translate_spec(plain + rest, lit) == translate_spec(rest, lit + plain),
    decreases plain.len(),
{
    if plain.len() == 0 {
        assert(plain + rest =~= rest);
        assert(lit + plain =~= lit);
    } else {
        assert((plain + rest)[0] == plain[0]);
        assert(plain[0] != '%');
        assert((plain + rest).drop_first() =~= plain.drop_first() + rest);
        assert(!plain.drop_first().contains('%')) by {
            if plain.drop_first().contains('%') {
                let k = choose|k: int| 0 <= k < plain.drop_first().len() && plain.drop_first()[k] == '%';
                assert(plain[k + 1] == '%');
            }
        }
        strftime_copies_literal_runs(plain.drop_first(), rest, lit.push(plain[0]));
        assert(lit.push(plain[0]) + plain.drop_first() =~= lit + plain);
    }
}

/// Text without `%` is copied as it is: it becomes one literal item (none
/// for empty text).
pub proof fn strftime_copies_plain_text(s: Seq<char>)
    requires
        !s.contains('%'),
    ensures
        translate_strftime_spec(s) == Ok::<Seq<Item>, PatternError>(flush(s)),
{
    lemma_plain_run(s, Seq::<char>::empty());
    assert(Seq::<char>::empty() + s =~= s);
}

/// The composite directives mean what they abbreviate: `%F` is
/// `%Y-%m-%d`, `%T` is `%H:%M:%S`, `%R` is `%H:%M`; and `%%` is a
/// literal `%`.
pub proof fn strftime_composites_expand()
    ensures
        translate_strftime_spec("%F"@) == translate_strftime_spec("%Y-%m-%d"@),
        translate_strftime_spec("%T"@) == translate_strftime_spec("%H:%M:%S"@),
        translate_strftime_spec("%R"@) == translate_strftime_spec("%H:%M"@),
        translate_strftime_spec("%%"@) == Ok::<Seq<Item>, PatternError>(seq![Item::Literal(seq!['%'])]),
{
    let e = Seq::<char>::empty();
    let ok_end = translate_spec(e, e);
    assert(ok_end == Ok::<Seq<Item>, PatternError>(Seq::<Item>::empty()));
    // %F
    reveal_strlit("%F");
    let f = "%F"@;
    assert(f.skip(2) =~= e);
    assert(translate_strftime_spec(f) == Ok::<Seq<Item>, PatternError>(
        seq![Item::Year, Item::Literal(seq!['-']), Item::Month, Item::Literal(seq!['-']), Item::Day],
    )) by {
        assert(Seq::<Item>::empty() + seq![Item::Year, Item::Literal(seq!['-']), Item::Month, Item::Literal(seq!['-']), Item::Day] + Seq::<Item>::empty() =~= seq![Item::Year, Item::Literal(seq!['-']), Item::Month, Item::Literal(seq!['-']), Item::Day]);
    }
    // %Y-%m-%d
    reveal_strlit("%Y-%m-%d");
    let g = "%Y-%m-%d"@;
    let g1 = g.skip(2);
    assert(g1 =~= seq!['-', '%', 'm', '-', '%', 'd']);
    let g2 = g1.drop_first();
    assert(g2 =~= seq!['%', 'm', '-', '%', 'd']);
    let g3 = g2.skip(2);
    assert(g3 =~= seq!['-', '%', 'd']);
    let g4 = g3.drop_first();
    assert(g4 =~= seq!['%', 'd']);
    assert(g4.skip(2) =~= e);
    assert(e.push('-') =~= seq!['-']);
    assert(translate_spec(g4, seq!['-']) == Ok::<Seq<Item>, PatternError>(seq![Item::Literal(seq!['-']), Item::Day])) by {
        assert(seq![Item::Literal(seq!['-'])] + seq![Item::Day] + Seq::<Item>::empty() =~= seq![Item::Literal(seq!['-']), Item::Day]);
    }
    assert(translate_spec(g3, e) == translate_spec(g4, seq!['-']));
    assert(translate_spec(g2, seq!['-']) == Ok::<Seq<Item>, PatternError>(
        seq![Item::Literal(seq!['-']), Item::Month, Item::Literal(seq!['-']), Item::Day],
    )) by {
        assert(seq![Item::Literal(seq!['-'])] + seq![Item::Month] + seq![Item::Literal(seq!['-']), Item::Day] =~= seq![Item::Literal(seq!['-']), Item::Month, Item::Literal(seq!['-']), Item::Day]);
    }
    assert(translate_spec(g1, e) == translate_spec(g2, seq!['-']));
    assert(translate_spec(g, e) == Ok::<Seq<Item>, PatternError>(
        seq![Item::Year, Item::Literal(seq!['-']), Item::Month, Item::Literal(seq!['-']), Item::Day],
    )) by {
        assert(Seq::<Item>::empty() + seq![Item::Year] + seq![Item::Literal(seq!['-']), Item::Month, Item::Literal(seq!['-']), Item::Day] =~= seq![Item::Year, Item::Literal(seq!['-']), Item::Month, Item::Literal(seq!['-']), Item::Day]);
    }
    lemma_hm_composites();
    // %%
    reveal_strlit("%%");
    let pp = "%%"@;
    assert(pp.skip(2) =~= e);
    assert(translate_spec(e, seq!['%']) == Ok::<Seq<Item>, PatternError>(seq![Item::Literal(seq!['%'])]));
    assert(Seq::<Item>::empty() + seq![Item::Literal(seq!['%'])] =~= seq![Item::Literal(seq!['%'])]);
}

proof fn lemma_hm_composites()
    ensures
        translate_strftime_spec("%T"@) == translate_strftime_spec("%H:%M:%S"@),
        translate_strftime_spec("%R"@) == translate_strftime_spec("%H:%M"@),
{
    let e = Seq::<char>::empty();
    let c = seq![':'];
    assert(e.push(':') =~= c);
    let hms = seq![Item::Hour, Item::Literal(c), Item::Minute, Item::Literal(c), Item::Second];
    let hm = seq![Item::Hour, Item::Literal(c), Item::Minute];
    assert(translate_spec(e, e) == Ok::<Seq<Item>, PatternError>(Seq::<Item>::empty()));
    reveal_strlit("%T");
    reveal_strlit("%R");
    assert("%T"@.skip(2) =~= e);
    assert("%R"@.skip(2) =~= e);
    assert(translate_strftime_spec("%T"@) == Ok::<Seq<Item>, PatternError>(hms)) by {
        assert(Seq::<Item>::empty() + hms + Seq::<Item>::empty() =~= hms);
    }
    assert(translate_strftime_spec("%R"@) == Ok::<Seq<Item>, PatternError>(hm)) by {
        assert(Seq::<Item>::empty() + hm + Seq::<Item>::empty() =~= hm);
    }
    reveal_strlit("%H:%M:%S");
    let t = "%H:%M:%S"@;
    assert(t.skip(2) =~= seq![':', '%', 'M', ':', '%', 'S']);
    assert(t.skip(2).drop_first() =~= seq!['%', 'M', ':', '%', 'S']);
    assert(t.skip(2).drop_first().skip(2) =~= seq![':', '%', 'S']);
    assert(t.skip(2).drop_first().skip(2).drop_first() =~= seq!['%', 'S']);
    assert(t.skip(2).drop_first().skip(2).drop_first().skip(2) =~= e);
    let last2 = seq![Item::Literal(c), Item::Second];
    assert(translate_spec(seq!['%', 'S'], c) == Ok::<Seq<Item>, PatternError>(last2)) by {
        assert(seq!['%', 'S'].skip(2) =~= e);
        assert(seq![Item::Literal(c)] + seq![Item::Second] + Seq::<Item>::empty() =~= last2);
    }
    let mid = seq![Item::Literal(c), Item::Minute, Item::Literal(c), Item::Second];
    assert(translate_spec(seq!['%', 'M', ':', '%', 'S'], c) == Ok::<Seq<Item>, PatternError>(mid)) by {
        assert(seq!['%', 'M', ':', '%', 'S'].skip(2) =~= seq![':', '%', 'S']);
        assert(seq![':', '%', 'S'].drop_first() =~= seq!['%', 'S']);
        assert(translate_spec(seq![':', '%', 'S'], e) == translate_spec(seq!['%', 'S'], e.push(':')));
        assert(seq![Item::Literal(c)] + seq![Item::Minute] + last2 =~= mid);
    }
    assert(translate_spec(seq![':', '%', 'M', ':', '%', 'S'], e) == translate_spec(seq!['%', 'M', ':', '%', 'S'], c)) by {
        assert(seq![':', '%', 'M', ':', '%', 'S'].drop_first() =~= seq!['%', 'M', ':', '%', 'S']);
    }
    assert(translate_spec(t, e) == Ok::<Seq<Item>, PatternError>(hms)) by {
        assert(Seq::<Item>::empty() + seq![Item::Hour] + mid =~= hms);
    }
    reveal_strlit("%H:%M");
    let u = "%H:%M"@;
    assert(u.skip(2) =~= seq![':', '%', 'M']);
    assert(seq![':', '%', 'M'].drop_first() =~= seq!['%', 'M']);
    let tail = seq![Item::Literal(c), Item::Minute];
    assert(translate_spec(seq!['%', 'M'], c) == Ok::<Seq<Item>, PatternError>(tail)) by {
        assert(seq!['%', 'M'].skip(2) =~= e);
        assert(seq![Item::Literal(c)] + seq![Item::Minute] + Seq::<Item>::empty() =~= tail);
    }
    assert(translate_spec(seq![':', '%', 'M'], e) == translate_spec(seq!['%', 'M'], c));
    assert(translate_spec(u, e) == Ok::<Seq<Item>, PatternError>(hm)) by {
        assert(Seq::<Item>::empty() + seq![Item::Hour] + tail =~= hm);
    }
}

pub open spec fn item_views(v: Seq<FormatItem>) -> Seq<Item> {
    v.map_values(|x: FormatItem| x@)
}

proof fn lemma_prefixed_assoc(a: Seq<Item>, b: Seq<Item>, r: Result<Seq<Item>, PatternError>)
    ensures
        prefixed(a, prefixed(b, r)) == prefixed(a + b, r),
{
    match r {
        Ok(x) => {
            assert(a + (b + x) =~= (a + b) + x);
        },
        Err(_) => {},
    }
}

fn flush_literal(items: &mut Vec<FormatItem>, literal: &mut Vec<char>)
    ensures
        item_views(final(items)@) == item_views(old(items)@) + flush(old(literal)@),
        final(literal)@.len() == 0,
{
    if literal.len() > 0 {
        let mut taken: Vec<char> = Vec::new();
        std::mem::swap(&mut taken, literal);
        items.push(FormatItem::Literal(taken));
        assert(item_views(items@) =~= item_views(old(items)@) + flush(old(literal)@));
    } else {
        assert(item_views(items@) =~= item_views(old(items)@) + flush(old(literal)@));
    }
}

/// Appends the items of a directive letter, or returns `false` when the letter
/// is no directive.
fn push_directive(items: &mut Vec<FormatItem>, code: char) -> (ok: bool)
    ensures
        match directive_items(code) {
            Some(d) => ok && item_views(final(items)@) == item_views(old(items)@) + d,
            None => !ok && final(items)@ == old(items)@,
        },
{
    let ghost before = item_views(items@);
    if code == 'Y' {
        items.push(FormatItem::Year);
    } else if code == 'y' {
        items.push(FormatItem::YearLastTwo);
    } else if code == 'm' {
        items.push(FormatItem::Month);
    } else if code == 'b' {
        items.push(FormatItem::MonthShort);
    } else if code == 'B' {
        items.push(FormatItem::MonthLong);
    } else if code == 'd' {
        items.push(FormatItem::Day);
    } else if code == 'H' {
        items.push(FormatItem::Hour);
    } else if code == 'I' {
        items.push(FormatItem::Hour12);
    } else if code == 'M' {
        items.push(FormatItem::Minute);
    } else if code == 'S' {
        items.push(FormatItem::Second);
    } else if code == 'a' {
        items.push(FormatItem::WeekdayShort);
    } else if code == 'A' {
        items.push(FormatItem::WeekdayLong);
    } else if code == 'p' {
        items.push(FormatItem::PeriodUpper);
    } else if code == 'P' {
        items.push(FormatItem::PeriodLower);
    } else if code == 'R' {
        items.push(FormatItem::Hour);
        items.push(FormatItem::Literal(crate::text::single(':')));
        items.push(FormatItem::Minute);
    } else if code == 'T' {
        items.push(FormatItem::Hour);
        items.push(FormatItem::Literal(crate::text::single(':')));
        items.push(FormatItem::Minute);
        items.push(FormatItem::Literal(crate::text::single(':')));
        items.push(FormatItem::Second);
    } else if code == 'F' {
        items.push(FormatItem::Year);
        items.push(FormatItem::Literal(crate::text::single('-')));
        items.push(FormatItem::Month);
        items.push(FormatItem::Literal(crate::text::single('-')));
        items.push(FormatItem::Day);
    } else if code == 'z' {
        items.push(FormatItem::OffsetHourSigned);
        items.push(FormatItem::OffsetMinute);
    } else {
        return false;
    }
    assert(item_views(items@) =~= before + directive_items(code).unwrap());
    true
}

/// Translates a strftime-style pattern (`%Y-%m-%d`, `%a, %d %B %Y %H:%M`, ...)
/// into format items.
pub fn translate_strftime(format: &str) -> (r: Result<Vec<FormatItem>, PatternError>)
    ensures
        match r {
            Ok(items) => translate_strftime_spec(format@) == Ok::<Seq<Item>, PatternError>(item_views(items@)),
            Err(e) => translate_strftime_spec(format@) == Err::<Seq<Item>, PatternError>(e),
        },
{
    let chars = chars_of(format);
    let mut items: Vec<FormatItem> = Vec::new();
    let mut literal: Vec<char> = Vec::new();
    let mut i: usize = 0;
    assert(chars@.skip(0) =~= chars@);
    while i < chars.len()
        invariant
            i <= chars@.len(),
            chars@ == format@,
            translate_strftime_spec(chars@) == prefixed(item_views(items@), translate_spec(chars@.skip(i as int), literal@)),
        decreases chars@.len() - i,
    {
        let ghost s = chars@.skip(i as int);
        let ch = chars[i];
        if ch == '%' {
            if i + 1 >= chars.len() {
                assert(s.len() == 1);
                assert(translate_spec(s, literal@) == Err::<Seq<Item>, PatternError>(PatternError::DanglingPercent));
                assert(translate_strftime_spec(format@) == Err::<Seq<Item>, PatternError>(PatternError::DanglingPercent));
                return Err(PatternError::DanglingPercent);
            }
            let code = chars[i + 1];
            assert(s[1] == code);
            assert(s.skip(2) =~= chars@.skip(i + 2));
            let ghost lit = literal@;
            let ghost before = item_views(items@);
            flush_literal(&mut items, &mut literal);
            if code == '%' {
                literal.push('%');
                assert(literal@ =~= seq!['%']);
                proof {
                    lemma_prefixed_assoc(before, flush(lit), translate_spec(chars@.skip(i + 2), seq!['%']));
                }
            } else if code == 'Z' {
                assert(translate_spec(s, lit) == Err::<Seq<Item>, PatternError>(PatternError::TimeZoneName));
                assert(translate_strftime_spec(format@) == Err::<Seq<Item>, PatternError>(PatternError::TimeZoneName));
                return Err(PatternError::TimeZoneName);
            } else {
                let ghost mid = item_views(items@);
                if !push_directive(&mut items, code) {
                    assert(translate_spec(s, lit) == Err::<Seq<Item>, PatternError>(PatternError::Unsupported(code)));
                    assert(translate_strftime_spec(format@) == Err::<Seq<Item>, PatternError>(PatternError::Unsupported(code)));
                return Err(PatternError::Unsupported(code));
                }
                proof {
                    let d = directive_items(code).unwrap();
                    lemma_prefixed_assoc(before, flush(lit) + d, translate_spec(chars@.skip(i + 2), Seq::<char>::empty()));
                    assert(item_views(items@) =~= before + (flush(lit) + d));
                    assert(literal@ =~= Seq::<char>::empty());
                }
            }
            i = i + 2;
        } else {
            assert(s.drop_first() =~= chars@.skip(i + 1));
            literal.push(ch);
            i = i + 1;
        }
    }
    let ghost lit = literal@;
    let ghost before = item_views(items@);
    flush_literal(&mut items, &mut literal);
    assert(chars@.skip(i as int) =~= Seq::<char>::empty());
    assert(item_views(items@) =~= before + flush(lit));
    Ok(items)
}

} // verus!
