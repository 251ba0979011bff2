//! `bckt themes`: listing, choosing and installing themes.

use vstd::prelude::*;

use crate::content::{file_name_spec, last_index_of};
use crate::sorted::{insert_sorted, strictly_sorted, to_strings};
use crate::text::{
    chars_eq, chars_of, extend_str, opt_view, slice_chars, string_of, string_views, to_lowercase,
    trim, trim_chars, unicode_lowercase, views,
};

verus! {

/// The lines `bckt themes list` prints: the installed theme names in
/// ascending order, the active one marked with `* `, the others indented.
pub open spec fn theme_line(name: Seq<char>, active: Option<Seq<char>>) -> Seq<char> {
    if active == Some(name) {
        "* "@ + name
    } else {
        "  "@ + name
    }
}

/// Lists installed themes, marking the active one.
pub fn theme_list_lines(names: &Vec<String>, active: &Option<String>) -> (r: Vec<String>)
    ensures
        ({
            let sorted = r@.map_values(|l: String| l@);
            exists|order: Seq<Seq<char>>|
                #![trigger order.len()]
                strictly_sorted(order) && (forall|y: Seq<char>| order.contains(y) <==> string_views(names@).contains(y))
                    && sorted == order.map_values(|n: Seq<char>| theme_line(n, opt_view(*active)))
        }),
{
    let mut set: Vec<Vec<char>> = Vec::new();
    let n = names.len();
    for i in 0..n
        invariant
            n == names@.len(),
            strictly_sorted(views(set@)),
            forall|y: Seq<char>| #[trigger] views(set@).contains(y) <==> string_views(names@).take(i as int).contains(y),
    {
        let ghost before = views(set@);
        let name = chars_of(names[i].as_str());
        insert_sorted(&mut set, &name);
        let ghost seen = string_views(names@).take(i as int);
        assert(string_views(names@).take(i + 1) =~= seen.push(name@));
        proof {
            crate::text::lemma_push_contains(seen, name@);
        }
        assert forall|y: Seq<char>| #[trigger] views(set@).contains(y) <==> string_views(names@).take(i + 1).contains(y) by {
            assert(before.contains(y) <==> seen.contains(y));
        }
    }
    assert(string_views(names@).take(n as int) =~= string_views(names@));
    let mut r: Vec<String> = Vec::new();
    let m = set.len();
    for k in 0..m
        invariant
            m == set@.len(),
            r@.map_values(|l: String| l@) == views(set@).take(k as int).map_values(
                |n: Seq<char>| theme_line(n, opt_view(*active)),
            ),
    {
        let mut line: Vec<char> = Vec::new();
        let is_active = match active {
            Some(a) => chars_eq(&chars_of(a.as_str()), &set[k]),
            None => false,
        };
        if is_active {
            extend_str(&mut line, "* ");
        } else {
            extend_str(&mut line, "  ");
        }
        crate::text::extend_chars(&mut line, &set[k]);
        let ghost before = r@;
        r.push(string_of(&line));
        assert(views(set@).take(k + 1) =~= views(set@).take(k as int).push(set@[k as int]@));
        assert(r@.map_values(|l: String| l@) =~= before.map_values(|l: String| l@).push(line@));
        assert(line@ == theme_line(set@[k as int]@, opt_view(*active)));
    }
    assert(views(set@).take(m as int) =~= views(set@));
    let ghost order = views(set@);
    assert(order.len() == order.len());
    r
}

/// The file stem of a path (`Path::file_stem`): its file name without the
/// extension.
pub open spec fn file_stem_spec(path: Seq<char>) -> Option<Seq<char>> {
    match file_name_spec(path) {
        None => None,
        Some(name) => {
            let k = last_index_of(name, '.');
            if k <= 0 {
                Some(name)
            } else {
                Some(name.take(k))
            }
        },
    }
}

/// The directory name a theme is installed under: the one given, else the
/// archive's file stem.
pub fn install_name(path: &str, name: &Option<String>) -> (r: Option<String>)
    ensures
        opt_view(r) == (match opt_view(*name) {
            Some(n) => Some(n),
            None => file_stem_spec(path@),
        }),
{
    match name {
        Some(n) => Some(n.clone()),
        None => {
            let name = match crate::content::file_name_of_str(path) {
                Some(n) => chars_of(n.as_str()),
                None => return None,
            };
            match crate::content::last_index_of_chars(&name, '.') {
                Some(k) => if k == 0 {
                    Some(string_of(&name))
                } else {
                    Some(string_of(&slice_chars(&name, 0, k)))
                },
                None => Some(string_of(&name)),
            }
        },
    }
}

/// Whether an answer to the overwrite prompt is a yes: `y` or `yes`,
/// trimmed and lowercased.
pub open spec fn is_yes_spec(answer: Seq<char>) -> bool {
    unicode_lowercase(trim(answer)) == "y"@ || unicode_lowercase(trim(answer)) == "yes"@
}

/// Reads the answer to the overwrite prompt.
pub fn is_yes(answer: &str) -> (r: bool)
    ensures
        r == is_yes_spec(answer@),
{
    let trimmed = string_of(&trim_chars(&chars_of(answer)));
    let lowered = chars_of(to_lowercase(trimmed.as_str()).as_str());
    chars_eq(&lowered, &chars_of("y")) || chars_eq(&lowered, &chars_of("yes"))
}

} // verus!
