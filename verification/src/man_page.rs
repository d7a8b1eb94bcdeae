//! Whether the man page documents every subcommand.
//!
//! Man pages repeat the names of subcommands in prose, so a search of the whole page cannot tell
//! an entry from a passing mention. Only the section `SUBCOMMANDS` counts, and in it only the
//! line directly under a `.TP`, which heads an entry.

use crate::text::{chars_of, same_text, split_words, trim};
use vstd::prelude::*;

verus! {

/// `pattern` stands in `s` at `at`.
pub open spec fn stands_at(s: Seq<char>, pattern: Seq<char>, at: int) -> bool {
    &&& 0 <= at <= s.len() - pattern.len()
    &&& s.subrange(at, at + pattern.len()) == pattern
}

/// The first place, not before `from`, where `pattern` stands in `s`.
pub open spec fn find_from(s: Seq<char>, pattern: Seq<char>, from: int) -> Option<int>
    decreases s.len() + 1 - from,
{
    if from + pattern.len() > s.len() {
        None
    } else if stands_at(s, pattern, from) {
        Some(from)
    } else {
        find_from(s, pattern, from + 1)
    }
}

/// `find_from` gives the first place, and none only where there is no place.
pub proof fn law_find_is_first(s: Seq<char>, pattern: Seq<char>, from: int)
    requires
        0 <= from,
    ensures
        match find_from(s, pattern, from) {
            Some(at) => {
                &&& from <= at
                &&& stands_at(s, pattern, at)
                &&& forall|i: int| from <= i < at ==> !(#[trigger] stands_at(s, pattern, i))
            },
            None => forall|i: int| from <= i ==> !(#[trigger] stands_at(s, pattern, i)),
        },
    decreases s.len() + 1 - from,
{
    if from + pattern.len() <= s.len() && !stands_at(s, pattern, from) {
        law_find_is_first(s, pattern, from + 1);
    }
}

fn find(s: &Vec<char>, pattern: &Vec<char>, from: usize) -> (res: Option<usize>)
    ensures
        match res {
            Some(at) => find_from(s@, pattern@, from as int) == Some(at as int),
            None => find_from(s@, pattern@, from as int) is None,
        },
        match res {
            Some(at) => {
                &&& from <= at <= s.len() - pattern.len()
                &&& s@.subrange(at as int, at + pattern.len()) == pattern@
                &&& forall|i: int|
                    from <= i < at ==> #[trigger] s@.subrange(i, i + pattern.len()) != pattern@
            },
            None => forall|i: int|
                from <= i <= s.len() - pattern.len() ==> #[trigger] s@.subrange(
                    i,
                    i + pattern.len(),
                ) != pattern@,
        },
{
    let mut at: usize = from;
    while at <= s.len() && s.len() - at >= pattern.len()
        invariant
            from <= at,
            find_from(s@, pattern@, from as int) == find_from(s@, pattern@, at as int),
            forall|i: int|
                from <= i < at ==> #[trigger] s@.subrange(i, i + pattern.len()) != pattern@,
        decreases s.len() + 1 - at,
    {
        let mut same: usize = 0;
        while same < pattern.len() && s[at + same] == pattern[same]
            invariant
                same <= pattern.len(),
                at + pattern.len() <= s.len(),
                forall|i: int| 0 <= i < same ==> s@[at + i] == pattern@[i],
            decreases pattern.len() - same,
        {
            same = same + 1;
        }
        if same == pattern.len() {
            assert(s@.subrange(at as int, at + pattern@.len()) == pattern@);
            return Some(at);
        }
        assert(s@.subrange(at as int, at + pattern@.len())[same as int] == s@[at + same]);
        at = at + 1;
    }
    None
}

/// The part of the page under the heading `.SH SUBCOMMANDS`, up to the next `.SH`.
pub open spec fn section_of(page: Seq<char>) -> Option<Seq<char>> {
    match find_from(page, ".SH SUBCOMMANDS"@, 0) {
        Some(at) => {
            let rest = page.skip(at + ".SH SUBCOMMANDS"@.len());
            match find_from(rest, "\n.SH "@, 0) {
                Some(end) => Some(rest.take(end)),
                None => Some(rest),
            }
        },
        None => None,
    }
}

/// The body of the section `SUBCOMMANDS`, or `None` where the page has no such section.
pub fn subcommands_section(page: &str) -> (res: Option<String>)
    ensures
        match res {
            Some(section) => section_of(page@) == Some(section@),
            None => section_of(page@) is None,
        },
{
    let all: Vec<char> = chars_of(page);
    let len: usize = all.len();
    let heading: Vec<char> = chars_of(".SH SUBCOMMANDS");
    proof {
        law_find_is_first(page@, ".SH SUBCOMMANDS"@, 0);
    }
    match find(&all, &heading, 0) {
        Some(at) => {
            let rest: &str = page.substring_char(at + heading.len(), len);
            assert(rest@ == page@.skip(at + heading@.len()));
            proof {
                law_find_is_first(rest@, "\n.SH "@, 0);
            }
            match find(&chars_of(rest), &chars_of("\n.SH "), 0) {
                Some(end) => {
                    assert(rest@.subrange(0, end as int) == rest@.take(end as int));
                    Some(rest.substring_char(0, end).to_owned())
                },
                None => Some(rest.to_owned()),
            }
        },
        None => None,
    }
}

/// `s` from `from` on, with hyphens in the place of groff's escaped hyphens.
pub open spec fn unescaped_from(s: Seq<char>, from: int) -> Seq<char>
    decreases s.len() - from,
{
    match find_from(s, "\\-"@, from) {
        Some(at) if from <= at <= s.len() - 2 => s.subrange(from, at) + "-"@ + unescaped_from(
            s,
            at + 2,
        ),
        _ => s.skip(from),
    }
}

fn unescape(s: &str) -> (res: String)
    ensures
        res@ == unescaped_from(s@, 0),
{
    let all: Vec<char> = chars_of(s);
    let pattern: Vec<char> = chars_of("\\-");
    proof {
        reveal_strlit("\\-");
    }
    let mut res: String = String::new();
    let mut from: usize = 0;
    assert(unescaped_from(s@, 0) == res@ + unescaped_from(s@, 0));
    loop
        invariant_except_break
            unescaped_from(s@, 0) == res@ + unescaped_from(s@, from as int),
        invariant
            all@ == s@,
            pattern@ == "\\-"@,
            pattern@.len() == 2,
            from <= all.len(),
        ensures
            res@ == unescaped_from(s@, 0),
        decreases all.len() - from,
    {
        proof {
            law_find_is_first(s@, "\\-"@, from as int);
        }
        match find(&all, &pattern, from) {
            Some(at) => {
                let ghost before = res@;
                res.append(s.substring_char(from, at));
                res.append("-");
                assert(before + (s@.subrange(from as int, at as int) + "-"@ + unescaped_from(
                    s@,
                    at + 2,
                )) == res@ + unescaped_from(s@, at + 2));
                from = at + 2;
            },
            None => {
                let ghost before = res@;
                res.append(s.substring_char(from, all.len()));
                assert(res@ == before + s@.skip(from as int));
                break;
            },
        }
    }
    res
}

/// The lines of `s` from `from` on: what lies between line breaks.
pub open spec fn lines_from(s: Seq<char>, from: int) -> Seq<Seq<char>>
    decreases s.len() - from,
{
    match find_from(s, "\n"@, from) {
        Some(at) if from <= at < s.len() => seq![s.subrange(from, at)] + lines_from(s, at + 1),
        _ => seq![s.skip(from)],
    }
}

fn split_lines(s: &str) -> (res: Vec<String>)
    ensures
        res.deep_view() == lines_from(s@, 0),
{
    let all: Vec<char> = chars_of(s);
    let pattern: Vec<char> = chars_of("\n");
    proof {
        reveal_strlit("\n");
    }
    let mut res: Vec<String> = Vec::new();
    let mut from: usize = 0;
    assert(lines_from(s@, 0) == res.deep_view() + lines_from(s@, 0));
    loop
        invariant_except_break
            lines_from(s@, 0) == res.deep_view() + lines_from(s@, from as int),
        invariant
            all@ == s@,
            pattern@ == "\n"@,
            pattern@.len() == 1,
            from <= all.len(),
        ensures
            res.deep_view() == lines_from(s@, 0),
        decreases all.len() - from,
    {
        proof {
            law_find_is_first(s@, "\n"@, from as int);
        }
        let ghost before = res.deep_view();
        match find(&all, &pattern, from) {
            Some(at) => {
                res.push(s.substring_char(from, at).to_owned());
                assert(res.deep_view() == before.push(s@.subrange(from as int, at as int)));
                assert(before + (seq![s@.subrange(from as int, at as int)] + lines_from(s@, at + 1))
                    == res.deep_view() + lines_from(s@, at + 1));
                from = at + 1;
            },
            None => {
                res.push(s.substring_char(from, all.len()).to_owned());
                assert(res.deep_view() == before.push(s@.skip(from as int)));
                assert(res.deep_view() == before + seq![s@.skip(from as int)]);
                break;
            },
        }
    }
    res
}

/// `s` begins with `prefix`.
pub open spec fn begins_with(s: Seq<char>, prefix: Seq<char>) -> bool {
    stands_at(s, prefix, 0)
}

/// `s` without `prefix`, where it begins with it.
fn after_prefix(s: &str, prefix: &str) -> (res: Option<String>)
    ensures
        match res {
            Some(rest) => begins_with(s@, prefix@) && rest@ == s@.skip(prefix@.len() as int),
            None => !begins_with(s@, prefix@),
        },
{
    let len: usize = s.unicode_len();
    let prefix_len: usize = prefix.unicode_len();
    if len < prefix_len {
        return None;
    }
    if same_text(s.substring_char(0, prefix_len), prefix) {
        assert(s@.subrange(prefix_len as int, len as int) == s@.skip(prefix_len as int));
        Some(s.substring_char(prefix_len, len).to_owned())
    } else {
        None
    }
}

/// The name in a line that heads an entry: the first word after `.BR`, all that follows `.B`, or
/// what is set bold by `\fB` at the start of the line and `\fR` behind it.
pub open spec fn name_in(line: Seq<char>) -> Option<Seq<char>> {
    if begins_with(line, ".BR "@) {
        let names = crate::text::words(line.skip(".BR "@.len() as int));
        if names.len() > 0 {
            Some(names[0])
        } else {
            None
        }
    } else if begins_with(line, ".B "@) {
        Some(crate::text::trimmed(line.skip(".B "@.len() as int)))
    } else if begins_with(line, "\\fB"@) {
        let rest = line.skip("\\fB"@.len() as int);
        match find_from(rest, "\\fR"@, 0) {
            Some(end) => Some(rest.take(end)),
            None => None,
        }
    } else {
        None
    }
}

fn header_name(line: &str) -> (res: Option<String>)
    ensures
        crate::text::text_view(res) == name_in(line@),
{
    if let Some(rest) = after_prefix(line, ".BR ") {
        let names: Vec<String> = split_words(rest.as_str());
        assert(names.deep_view() == crate::text::words(rest@));
        if names.len() > 0 {
            assert(names.deep_view()[0] == names[0]@);
            return Some(names[0].clone());
        }
        return None;
    }
    if let Some(rest) = after_prefix(line, ".B ") {
        return Some(trim(rest.as_str()));
    }
    if let Some(rest) = after_prefix(line, "\\fB") {
        proof {
            law_find_is_first(rest@, "\\fR"@, 0);
        }
        return match find(&chars_of(rest.as_str()), &chars_of("\\fR"), 0) {
            Some(end) => {
                assert(rest@.subrange(0, end as int) == rest@.take(end as int));
                Some(rest.as_str().substring_char(0, end).to_owned())
            },
            None => None,
        };
    }
    None
}

/// The line at `at` heads an entry: it stands directly under a `.TP`.
pub open spec fn heads_entry(lines: Seq<Seq<char>>, at: int) -> bool {
    1 <= at < lines.len() && crate::text::trimmed(lines[at - 1]) == ".TP"@
}

/// The names that head entries in the first `count` lines.
pub open spec fn names_heading(lines: Seq<Seq<char>>, count: int) -> Seq<Seq<char>>
    decreases count,
{
    if count <= 0 {
        Seq::empty()
    } else {
        let before = names_heading(lines, count - 1);
        match name_in(crate::text::trimmed(lines[count - 1])) {
            Some(name) if heads_entry(lines, count - 1) => before.push(name),
            _ => before,
        }
    }
}

/// The names of the subcommands that have an entry in a section.
pub open spec fn names_of_entries(section: Seq<char>) -> Seq<Seq<char>> {
    let lines = lines_from(unescaped_from(section, 0), 0);
    names_heading(lines, lines.len() as int)
}

/// The names of the subcommands that have an entry in `section`, in order.
pub fn entry_headers(section: &str) -> (res: Vec<String>)
    ensures
        res.deep_view() == names_of_entries(section@),
{
    let lines: Vec<String> = split_lines(unescape(section).as_str());
    let mut res: Vec<String> = Vec::new();
    let ghost all = lines.deep_view();
    let mut under_tag: bool = false;
    for i in 0..lines.len()
        invariant
            all == lines.deep_view(),
            i < all.len() ==> under_tag == heads_entry(all, i as int),
            res.deep_view() == names_heading(all, i as int),
    {
        let line: String = trim(lines[i].as_str());
        assert(all[i as int] == lines[i as int]@);
        if under_tag {
            if let Some(name) = header_name(line.as_str()) {
                let ghost before = res.deep_view();
                res.push(name);
                assert(res.deep_view() == before.push(name@));
            }
        }
        under_tag = same_text(line.as_str(), ".TP");
    }
    res
}

/// The names among `names` that no entry of the page is for, in order.
pub open spec fn missing_from(page_names: Seq<Seq<char>>, names: Seq<Seq<char>>) -> Seq<Seq<char>>
    decreases names.len(),
{
    if names.len() == 0 {
        Seq::empty()
    } else {
        let before = missing_from(page_names, names.drop_last());
        if page_names.contains(names.last()) {
            before
        } else {
            before.push(names.last())
        }
    }
}

/// The subcommands among `names` that the page does not document: those without an entry in its
/// section `SUBCOMMANDS`. `None` where it has no such section.
pub fn undocumented(page: &str, names: &Vec<String>) -> (res: Option<Vec<String>>)
    ensures
        match section_of(page@) {
            Some(section) => {
                &&& res matches Some(missing)
                &&& missing.deep_view() == missing_from(
                    names_of_entries(section),
                    names.deep_view(),
                )
            },
            None => res is None,
        },
{
    let section: String = match subcommands_section(page) {
        Some(section) => section,
        None => return None,
    };
    let headers: Vec<String> = entry_headers(section.as_str());
    let mut res: Vec<String> = Vec::new();
    let ghost known = headers.deep_view();
    let ghost all = names.deep_view();
    for i in 0..names.len()
        invariant
            known == headers.deep_view(),
            all == names.deep_view(),
            res.deep_view() == missing_from(known, all.take(i as int)),
    {
        let name: &String = &names[i];
        let mut found: bool = false;
        for j in 0..headers.len()
            invariant
                known == headers.deep_view(),
                found == exists|k: int| 0 <= k < j && known[k] == name@,
        {
            assert(known[j as int] == headers[j as int]@);
            if headers[j] == *name {
                found = true;
            }
        }
        assert(all.take(i + 1).drop_last() == all.take(i as int));
        assert(all[i as int] == name@);
        assert(found == known.contains(name@));
        if !found {
            let ghost before = res.deep_view();
            res.push(name.clone());
            assert(res.deep_view() == before.push(name@));
        }
    }
    assert(all.take(all.len() as int) == all);
    Some(res)
}

/// A line that is not directly under a `.TP` heads nothing, whatever it says: with any other in
/// its place, so long as neither is a `.TP` itself, the same names head entries.
pub proof fn law_mentions_in_text_do_not_count(
    lines: Seq<Seq<char>>,
    at: int,
    other: Seq<char>,
    count: int,
)
    requires
        0 <= at < lines.len(),
        !heads_entry(lines, at),
        crate::text::trimmed(lines[at]) != ".TP"@,
        crate::text::trimmed(other) != ".TP"@,
        0 <= count <= lines.len(),
    ensures
        names_heading(lines.update(at, other), count) == names_heading(lines, count),
    decreases count,
{
    if count > 0 {
        law_mentions_in_text_do_not_count(lines, at, other, count - 1);
        let changed = lines.update(at, other);
        assert(heads_entry(changed, count - 1) == heads_entry(lines, count - 1));
    }
}

/// A subcommand is documented where, and only where, its name heads an entry.
pub proof fn law_undocumented_names_head_no_entry(
    page_names: Seq<Seq<char>>,
    names: Seq<Seq<char>>,
    name: Seq<char>,
)
    ensures
        missing_from(page_names, names).contains(name) <==> names.contains(name)
            && !page_names.contains(name),
    decreases names.len(),
{
    if names.len() > 0 {
        let rest = names.drop_last();
        let before = missing_from(page_names, rest);
        law_undocumented_names_head_no_entry(page_names, rest, name);
        assert(names == rest.push(names.last()));
        if rest.contains(name) {
            let k = choose|k: int| 0 <= k < rest.len() && rest[k] == name;
            assert(names[k] == name);
        }
        if names.contains(name) && !rest.contains(name) {
            let k = choose|k: int| 0 <= k < names.len() && names[k] == name;
            if k < rest.len() {
                assert(rest[k] == name);
            }
        }
        if name == names.last() {
            assert(names[names.len() - 1] == name);
        }
        if before.contains(name) {
            let k = choose|k: int| 0 <= k < before.len() && before[k] == name;
            assert(before.push(names.last())[k] == name);
        }
        if !page_names.contains(names.last()) {
            let after = before.push(names.last());
            assert(after[after.len() - 1] == names.last());
            if after.contains(name) && !before.contains(name) {
                let k = choose|k: int| 0 <= k < after.len() && after[k] == name;
                if k < before.len() {
                    assert(before[k] == name);
                }
            }
        }
    }
}

/// A pattern stands at a place of a text where, and only where, the text has room for it there and
/// has the pattern's characters one after the other.
pub proof fn law_pattern_stands_by_its_characters(s: Seq<char>, pattern: Seq<char>, at: int)
    ensures
        stands_at(s, pattern, at) <==> {
            &&& 0 <= at
            &&& at + pattern.len() <= s.len()
            &&& forall|i: int| 0 <= i < pattern.len() ==> s[at + i] == #[trigger] pattern[i]
        },
        begins_with(s, pattern) <==> stands_at(s, pattern, 0),
{
    if 0 <= at && at + pattern.len() <= s.len() {
        let part = s.subrange(at, at + pattern.len());
        if stands_at(s, pattern, at) {
            assert forall|i: int| 0 <= i < pattern.len() implies s[at + i]
                == #[trigger] pattern[i] by {
                assert(part[i] == s[at + i]);
            }
        } else if forall|i: int| 0 <= i < pattern.len() ==> s[at + i] == #[trigger] pattern[i] {
            assert(part == pattern);
        }
    }
}

/// A text begins with what was put in front of it.
pub proof fn law_text_begins_with_its_front(front: Seq<char>, rest: Seq<char>)
    ensures
        begins_with(front + rest, front),
        (front + rest).skip(front.len() as int) == rest,
{
    assert((front + rest).subrange(0, front.len() as int) == front);
    assert((front + rest).skip(front.len() as int) == rest);
}

/// The section is what lies between the first heading `.SH SUBCOMMANDS` and the next line that
/// begins with `.SH`, or the end of the page; and there is none only where there is no such
/// heading.
pub proof fn law_section_lies_between_headings(page: Seq<char>)
    ensures
        match section_of(page) {
            Some(section) => exists|at: int|
                {
                    let rest = page.skip(at + 15);
                    &&& #[trigger] stands_at(page, ".SH SUBCOMMANDS"@, at)
                    &&& forall|i: int|
                        0 <= i < at ==> !(#[trigger] stands_at(page, ".SH SUBCOMMANDS"@, i))
                    &&& section.len() <= rest.len()
                    &&& section == rest.take(section.len() as int)
                    &&& section == rest || stands_at(rest, "\n.SH "@, section.len() as int)
                    &&& forall|i: int|
                        0 <= i < section.len() ==> !(#[trigger] stands_at(rest, "\n.SH "@, i))
                },
            None => forall|i: int| !(#[trigger] stands_at(page, ".SH SUBCOMMANDS"@, i)),
        },
{
    reveal_strlit(".SH SUBCOMMANDS");
    law_find_is_first(page, ".SH SUBCOMMANDS"@, 0);
    match find_from(page, ".SH SUBCOMMANDS"@, 0) {
        Some(at) => {
            let rest = page.skip(at + 15);
            assert(".SH SUBCOMMANDS"@.len() == 15);
            law_find_is_first(rest, "\n.SH "@, 0);
            assert(stands_at(page, ".SH SUBCOMMANDS"@, at));
            let section = section_of(page)->Some_0;
            assert(section == rest.take(section.len() as int));
        },
        None => {},
    }
}

/// Before the heading and behind the section a page may hold anything, so long as the heading is
/// the first: with `section` between them, that is the section.
pub proof fn law_section_is_found_on_the_page(
    before: Seq<char>,
    section: Seq<char>,
    after: Seq<char>,
)
    requires
        forall|i: int|
            0 <= i < before.len() ==> !(#[trigger] stands_at(
                before + ".SH SUBCOMMANDS"@ + section + after,
                ".SH SUBCOMMANDS"@,
                i,
            )),
        after.len() == 0 || begins_with(after, "\n.SH "@),
        forall|i: int|
            0 <= i < section.len() ==> !(#[trigger] stands_at(section + after, "\n.SH "@, i)),
    ensures
        section_of(before + ".SH SUBCOMMANDS"@ + section + after) == Some(section),
{
    reveal_strlit("\n.SH ");
    let heading = ".SH SUBCOMMANDS"@;
    let page = before + heading + section + after;
    let at = before.len() as int;
    assert(page.subrange(at, at + heading.len()) == heading);
    assert(stands_at(page, heading, at));
    law_find_is_first(page, heading, 0);
    assert(find_from(page, heading, 0) == Some(at));
    let rest = page.skip(at + heading.len());
    assert(rest == section + after);
    law_find_is_first(rest, "\n.SH "@, 0);
    if after.len() == 0 {
        assert(rest == section);
        if let Some(end) = find_from(rest, "\n.SH "@, 0) {
            assert(stands_at(section + after, "\n.SH "@, end));
        }
    } else {
        let end = section.len() as int;
        assert(rest.subrange(end, end + 5) == after.subrange(0, 5));
        assert(stands_at(rest, "\n.SH "@, end));
        if let Some(found) = find_from(rest, "\n.SH "@, 0) {
            assert(stands_at(section + after, "\n.SH "@, found));
        }
        assert(find_from(rest, "\n.SH "@, 0) == Some(end));
        assert(rest.take(end) == section);
    }
}

/// `find_from` in a text with something in front of it is `find_from` in the text, further on.
proof fn lemma_find_behind(front: Seq<char>, s: Seq<char>, pattern: Seq<char>, from: int)
    requires
        0 <= from,
    ensures
        find_from(front + s, pattern, front.len() + from) == match find_from(s, pattern, from) {
            Some(at) => Some(front.len() + at),
            None => None,
        },
    decreases s.len() + 1 - from,
{
    let n = front.len() as int;
    if from + pattern.len() <= s.len() {
        assert((front + s).subrange(n + from, n + from + pattern.len()) == s.subrange(
            from,
            from + pattern.len(),
        ));
        if !stands_at(s, pattern, from) {
            lemma_find_behind(front, s, pattern, from + 1);
        }
    }
}

proof fn lemma_unescaped_behind(front: Seq<char>, s: Seq<char>, from: int)
    requires
        0 <= from <= s.len(),
    ensures
        unescaped_from(front + s, front.len() + from) == unescaped_from(s, from),
    decreases s.len() - from,
{
    let n = front.len() as int;
    lemma_find_behind(front, s, "\\-"@, from);
    law_find_is_first(s, "\\-"@, from);
    match find_from(s, "\\-"@, from) {
        Some(at) if from <= at <= s.len() - 2 => {
            lemma_unescaped_behind(front, s, at + 2);
            assert((front + s).subrange(n + from, n + at) == s.subrange(from, at));
            assert(n + at + 2 == n + (at + 2));
        },
        _ => {
            assert((front + s).skip(n + from) == s.skip(from));
        },
    }
}

proof fn lemma_first_escaped_hyphen(a: Seq<char>, b: Seq<char>)
    requires
        forall|i: int| !(#[trigger] stands_at(a, "\\-"@, i)),
    ensures
        find_from(a + "\\-"@ + b, "\\-"@, 0) == Some(a.len() as int),
{
    reveal_strlit("\\-");
    let escaped = "\\-"@;
    let n = a.len() as int;
    let s = a + escaped + b;
    assert(s.subrange(n, n + 2) == escaped);
    assert forall|i: int| 0 <= i < n implies !(#[trigger] stands_at(s, escaped, i)) by {
        let part = s.subrange(i, i + 2);
        if i < n - 1 {
            assert(part == a.subrange(i, i + 2));
            assert(!stands_at(a, escaped, i));
        } else {
            assert(part[1] == escaped[0]);
        }
    }
    assert(stands_at(s, escaped, n));
    law_find_is_first(s, escaped, 0);
}

/// Every escaped hyphen becomes a hyphen, and nothing else changes: a text without one stays as it
/// is, and one that begins with `a`, which holds none, and an escaped hyphen is `a`, a hyphen, and
/// what becomes of the rest.
pub proof fn law_escaped_hyphens_become_hyphens(a: Seq<char>, b: Seq<char>)
    requires
        forall|i: int| !(#[trigger] stands_at(a, "\\-"@, i)),
    ensures
        unescaped_from(a, 0) == a,
        unescaped_from(a + "\\-"@ + b, 0) == a + "-"@ + unescaped_from(b, 0),
        "\\-"@ == seq!['\\', '-'],
        "-"@ == seq!['-'],
{
    let n = a.len() as int;
    let front = a + "\\-"@;
    let s = front + b;
    assert("\\-"@ == seq!['\\', '-'] && "-"@ == seq!['-']) by {
        reveal_strlit("\\-");
        reveal_strlit("-");
    }
    assert(unescaped_from(a, 0) == a) by {
        law_find_is_first(a, "\\-"@, 0);
        assert(a.skip(0) == a);
    }
    lemma_first_escaped_hyphen(a, b);
    lemma_unescaped_behind(front, b, 0);
    assert(s.subrange(0, n) == a);
    assert(unescaped_from(s, 0) == s.subrange(0, n) + "-"@ + unescaped_from(s, n + 2));
}

proof fn lemma_lines_behind(front: Seq<char>, s: Seq<char>, from: int)
    requires
        0 <= from <= s.len(),
    ensures
        lines_from(front + s, front.len() + from) == lines_from(s, from),
    decreases s.len() - from,
{
    let n = front.len() as int;
    lemma_find_behind(front, s, "\n"@, from);
    law_find_is_first(s, "\n"@, from);
    match find_from(s, "\n"@, from) {
        Some(at) if from <= at < s.len() => {
            lemma_lines_behind(front, s, at + 1);
            assert((front + s).subrange(n + from, n + at) == s.subrange(from, at));
            assert(n + at + 1 == n + (at + 1));
        },
        _ => {
            assert((front + s).skip(n + from) == s.skip(from));
        },
    }
}

/// A text is cut into lines at each line break, and nowhere else: a text without one is one line,
/// and one that begins with `a`, which holds none, and a line break is the line `a` and the lines
/// of the rest.
pub proof fn law_lines_end_at_line_breaks(a: Seq<char>, b: Seq<char>)
    requires
        !a.contains('\n'),
    ensures
        lines_from(a, 0) == seq![a],
        lines_from(a + seq!['\n'] + b, 0) == seq![a] + lines_from(b, 0),
{
    reveal_strlit("\n");
    let end = "\n"@;
    assert(end == seq!['\n']);
    law_find_is_first(a, end, 0);
    assert forall|i: int| 0 <= i implies !(#[trigger] stands_at(a, end, i)) by {
        law_pattern_stands_by_its_characters(a, end, i);
        if stands_at(a, end, i) {
            assert(a[i] == end[0]);
            assert(a.contains(a[i]));
        }
    }
    assert(a.skip(0) == a);
    let n = a.len() as int;
    let s = a + seq!['\n'] + b;
    law_find_is_first(s, end, 0);
    assert(s.subrange(n, n + 1) == end);
    assert(stands_at(s, end, n));
    assert forall|i: int| 0 <= i < n implies !(#[trigger] stands_at(s, end, i)) by {
        law_pattern_stands_by_its_characters(s, end, i);
        if stands_at(s, end, i) {
            assert(s[i] == end[0]);
            assert(a.contains(a[i]));
        }
    }
    assert(find_from(s, end, 0) == Some(n));
    let front = a + seq!['\n'];
    lemma_lines_behind(front, b, 0);
    assert(front.len() == n + 1);
    assert(s.subrange(0, n) == a);
}

/// The three ways to head an entry: the first word behind `.BR`, all that stands behind `.B`
/// without the white space at its ends, and what stands between `\fB` and the first `\fR` behind
/// it. A line that begins with none of `.BR`, `.B` and `\fB` heads no entry.
pub proof fn law_names_stand_behind_their_marks(rest: Seq<char>, line: Seq<char>)
    ensures
        crate::text::blank(rest) ==> name_in(".BR "@ + rest) is None,
        !crate::text::blank(rest) ==> name_in(".BR "@ + rest) == Some(crate::text::words(rest)[0]),
        name_in(".B "@ + rest) == Some(crate::text::trimmed(rest)),
        match name_in("\\fB"@ + rest) {
            Some(name) => {
                &&& name.len() <= rest.len()
                &&& name == rest.take(name.len() as int)
                &&& stands_at(rest, "\\fR"@, name.len() as int)
                &&& forall|i: int| 0 <= i < name.len() ==> !(#[trigger] stands_at(rest, "\\fR"@, i))
            },
            None => forall|i: int| !(#[trigger] stands_at(rest, "\\fR"@, i)),
        },
        !begins_with(line, ".BR "@) && !begins_with(line, ".B "@) && !begins_with(line, "\\fB"@)
            ==> name_in(line) is None,
{
    reveal_strlit(".BR ");
    reveal_strlit(".B ");
    reveal_strlit("\\fB");
    law_text_begins_with_its_front(".BR "@, rest);
    law_text_begins_with_its_front(".B "@, rest);
    law_text_begins_with_its_front("\\fB"@, rest);
    crate::text::law_blank_texts_have_no_words(rest);
    let plain = ".B "@ + rest;
    law_pattern_stands_by_its_characters(plain, ".BR "@, 0);
    if begins_with(plain, ".BR "@) {
        assert(plain[2] == ".BR "@[2]);
    }
    let bold = "\\fB"@ + rest;
    law_pattern_stands_by_its_characters(bold, ".BR "@, 0);
    law_pattern_stands_by_its_characters(bold, ".B "@, 0);
    if begins_with(bold, ".BR "@) {
        assert(bold[0] == ".BR "@[0]);
    }
    if begins_with(bold, ".B "@) {
        assert(bold[0] == ".B "@[0]);
    }
    law_find_is_first(rest, "\\fR"@, 0);
}

/// A line heads an entry where, and only where, the line before it is a `.TP`, which may have white
/// space around it; the first line heads none.
pub proof fn law_entries_are_headed_under_a_tag(lines: Seq<Seq<char>>, at: int)
    ensures
        heads_entry(lines, at) <==> {
            &&& 0 < at
            &&& at < lines.len()
            &&& crate::text::trimmed(lines[at - 1]) == seq!['.', 'T', 'P']
        },
{
    reveal_strlit(".TP");
    assert(".TP"@ == seq!['.', 'T', 'P']);
}

/// With one line more, the names are those of the lines before, and behind them the name of that
/// line where it stands under a `.TP` and has a name.
pub proof fn law_names_are_collected_line_by_line(lines: Seq<Seq<char>>, line: Seq<char>)
    ensures
        ({
            let n = lines.len() as int;
            let before = names_heading(lines, n);
            let after = names_heading(lines.push(line), n + 1);
            let name = name_in(crate::text::trimmed(line));
            let under_tag = n > 0 && crate::text::trimmed(lines[n - 1]) == ".TP"@;
            &&& under_tag && name is Some ==> after == before.push(name->Some_0)
            &&& !(under_tag && name is Some) ==> after == before
        }),
        names_heading(lines, 0).len() == 0,
{
    lemma_names_of_first_lines(lines, lines.push(line), lines.len() as int);
}

proof fn lemma_names_of_first_lines(lines: Seq<Seq<char>>, more: Seq<Seq<char>>, count: int)
    requires
        0 <= count <= lines.len() <= more.len(),
        forall|i: int| 0 <= i < lines.len() ==> #[trigger] more[i] == lines[i],
    ensures
        names_heading(more, count) == names_heading(lines, count),
    decreases count,
{
    if count > 0 {
        lemma_names_of_first_lines(lines, more, count - 1);
        assert(more[count - 1] == lines[count - 1]);
        if count >= 2 {
            assert(more[count - 2] == lines[count - 2]);
        }
    }
}

/// The names of a section are those that head entries in its lines, all of them, once escaped
/// hyphens are hyphens.
pub proof fn law_section_names_come_from_all_its_lines(section: Seq<char>)
    ensures
        ({
            let lines = lines_from(unescaped_from(section, 0), 0);
            names_of_entries(section) == names_heading(lines, lines.len() as int)
        }),
{
}

/// The names that are missing are those that the page lacks, in the order in which they were asked
/// for and as often: none of them is missing where all are on the page, and all where none is.
pub proof fn law_missing_names_keep_their_order(
    page_names: Seq<Seq<char>>,
    names: Seq<Seq<char>>,
    name: Seq<char>,
)
    ensures
        missing_from(page_names, Seq::empty()).len() == 0,
        page_names.contains(name) ==> missing_from(page_names, names.push(name)) == missing_from(
            page_names,
            names,
        ),
        !page_names.contains(name) ==> missing_from(page_names, names.push(name)) == missing_from(
            page_names,
            names,
        ).push(name),
{
    assert(names.push(name).drop_last() == names);
    assert(names.push(name).last() == name);
}

proof fn lemma_names_come_from_lines(lines: Seq<Seq<char>>, count: int, name: Seq<char>)
    requires
        0 <= count <= lines.len(),
    ensures
        names_heading(lines, count).contains(name) <==> exists|at: int|
            0 <= at < count && #[trigger] heads_entry(lines, at) && name_in(
                crate::text::trimmed(lines[at]),
            ) == Some(name),
    decreases count,
{
    if count > 0 {
        let last = count - 1;
        lemma_names_come_from_lines(lines, last, name);
        let before = names_heading(lines, last);
        let after = names_heading(lines, count);
        if after != before {
            assert(after == before.push(after.last()));
            assert(after[before.len() as int] == after.last());
            if before.contains(name) {
                let k = choose|k: int| 0 <= k < before.len() && before[k] == name;
                assert(after[k] == name);
            }
            if after.contains(name) && !before.contains(name) {
                let k = choose|k: int| 0 <= k < after.len() && after[k] == name;
                if k < before.len() {
                    assert(before[k] == name);
                }
                assert(heads_entry(lines, last));
            }
        }
    }
}

/// A name is documented in a section where, and only where, some line of it, once escaped hyphens
/// are hyphens, has that name and stands directly under a `.TP`, with white space around the lines
/// not counting.
pub proof fn law_documented_names_stand_under_a_tag(section: Seq<char>, name: Seq<char>)
    ensures
        ({
            let lines = lines_from(unescaped_from(section, 0), 0);
            names_of_entries(section).contains(name) <==> exists|at: int|
                {
                    &&& 1 <= at < lines.len()
                    &&& crate::text::trimmed(lines[at - 1]) == ".TP"@
                    &&& name_in(crate::text::trimmed(#[trigger] lines[at])) == Some(name)
                }
        }),
{
    let lines = lines_from(unescaped_from(section, 0), 0);
    lemma_names_come_from_lines(lines, lines.len() as int, name);
    if names_of_entries(section).contains(name) {
        let at = choose|at: int|
            0 <= at < lines.len() && #[trigger] heads_entry(lines, at) && name_in(
                crate::text::trimmed(lines[at]),
            ) == Some(name);
        assert(name_in(crate::text::trimmed(lines[at])) == Some(name));
    }
    if exists|at: int|
        {
            &&& 1 <= at < lines.len()
            &&& crate::text::trimmed(lines[at - 1]) == ".TP"@
            &&& name_in(crate::text::trimmed(#[trigger] lines[at])) == Some(name)
        } {
        let at = choose|at: int|
            {
                &&& 1 <= at < lines.len()
                &&& crate::text::trimmed(lines[at - 1]) == ".TP"@
                &&& name_in(crate::text::trimmed(#[trigger] lines[at])) == Some(name)
            };
        assert(heads_entry(lines, at));
    }
}

} // verus!
