//! File paths as text, by the rules of Unix or of Windows. A path that is not Unicode is taken in
//! its lossy text.
use vstd::prelude::*;

use crate::path::prefix::{Prefix, Style, System};
use crate::text;

pub mod case;
pub mod prefix;

verus! {

/// Where the prefix of a path ends.
pub open spec fn prefix_end(path: Seq<char>, system: System) -> int {
    match prefix::prefix_of(path, system) {
        Some(found) => prefix::prefix_len(found) as int,
        None => 0,
    }
}

/// What separates the names in a path: after a verbatim prefix only `\` does.
pub open spec fn style_of(path: Seq<char>, system: System) -> Style {
    match prefix::prefix_of(path, system) {
        Some(found) => if prefix::is_verbatim(found) {
            Style::Backslash
        } else {
            Style::Either
        },
        None => prefix::usual_style(system),
    }
}

/// Whether a separator follows the prefix of a path, or opens a path without prefix.
pub open spec fn has_root_mark(path: Seq<char>, system: System) -> bool {
    let at = prefix_end(path, system);
    at < path.len() && prefix::separates(path[at], prefix::usual_style(system))
}

/// Whether a path starts at a root.
pub open spec fn has_root(path: Seq<char>, system: System) -> bool {
    ||| has_root_mark(path, system)
    ||| (prefix::prefix_of(path, system) matches Some(found) && prefix::implies_root(found))
}

/// Where the names in a path start.
pub open spec fn body_start(path: Seq<char>, system: System) -> int {
    if has_root_mark(path, system) {
        prefix_end(path, system) + 1
    } else {
        prefix_end(path, system)
    }
}

/// Whether the names in a path follow a drive and start with a `.`.
pub open spec fn has_drive_dot(path: Seq<char>, system: System) -> bool {
    let at = prefix_end(path, system);
    &&& prefix::prefix_of(path, system) matches Some(found) && found is Disk
    &&& at < path.len() && path[at] == '.'
    &&& at + 1 < path.len() ==> prefix::separates(path[at + 1], Style::Either)
}

/// Where what stands before the components of a path ends.
pub open spec fn head_end(path: Seq<char>, system: System) -> int {
    if has_drive_dot(path, system) {
        body_start(path, system) + 1
    } else {
        body_start(path, system)
    }
}

/// Whether the text between two separators names nothing: it is empty, or it is a `.` that
/// neither opens the path nor follows a verbatim prefix.
pub open spec fn names_nothing(part: Seq<char>, at: int, style: Style) -> bool {
    part.len() == 0 || (part == seq!['.'] && at > 0 && style != Style::Backslash)
}

/// The components of a path from position `from` on, each with the positions where it starts and
/// ends.
pub open spec fn components_from(path: Seq<char>, from: int, style: Style) -> Seq<(int, int)>
    decreases path.len() - from,
{
    if from < 0 || from >= path.len() {
        seq![]
    } else {
        let end = from + prefix::first_separator(path.skip(from), style);
        let rest = if end < path.len() {
            components_from(path, end + 1, style)
        } else {
            seq![]
        };
        if names_nothing(path.subrange(from, end), from, style) {
            rest
        } else {
            seq![(from, end)] + rest
        }
    }
}

/// The components of a path, its prefix and its root left out. Repeated separators and a separator
/// at the end add none, nor does a `.` that names nothing.
pub open spec fn components(path: Seq<char>, system: System) -> Seq<(int, int)> {
    components_from(path, body_start(path, system), style_of(path, system))
}

/// The text of the `i`th component of a path.
pub open spec fn component(path: Seq<char>, i: int, system: System) -> Seq<char> {
    path.subrange(components(path, system)[i].0, components(path, system)[i].1)
}

/// Where the first `k` components of a path end.
pub open spec fn end_of(path: Seq<char>, k: int, system: System) -> int {
    if k > 0 {
        components(path, system)[k - 1].1
    } else {
        head_end(path, system)
    }
}

/// The last component of a path, unless that is `.` or `..`.
pub open spec fn name_of(path: Seq<char>, system: System) -> Option<Seq<char>> {
    let count = components(path, system).len();
    if count == 0 {
        None
    } else {
        let last = component(path, count - 1, system);
        if last == seq!['.'] || last == seq!['.', '.'] {
            None
        } else {
            Some(last)
        }
    }
}

/// The position of the last `c` in `s`, or -1 where there is none.
pub open spec fn last_index(s: Seq<char>, c: char) -> int
    decreases s.len(),
{
    if s.len() == 0 {
        -1
    } else if s.last() == c {
        s.len() - 1
    } else {
        last_index(s.drop_last(), c)
    }
}

/// What follows the last dot of a path's file name, unless that dot opens the name.
pub open spec fn extension_of(path: Seq<char>, system: System) -> Option<Seq<char>> {
    match name_of(path, system) {
        Some(name) => {
            let dot = last_index(name, '.');
            if dot > 0 {
                Some(name.skip(dot + 1))
            } else {
                None
            }
        },
        None => None,
    }
}

/// Whether a path is nothing but a prefix, or empty.
pub open spec fn is_bare_prefix(path: Seq<char>, system: System) -> bool {
    !has_root(path, system) && components(path, system).len() == 0
}

/// Whether `path` opens with `base`: with its prefix, its root and its components. An empty base
/// opens every path.
pub open spec fn lies_under(path: Seq<char>, base: Seq<char>, system: System) -> bool {
    let count = components(base, system).len();
    if is_bare_prefix(base, system) {
        prefix::prefix_of(base, system) is None || prefix::prefix_of(path, system)
            == prefix::prefix_of(base, system)
    } else {
        &&& prefix::prefix_of(path, system) == prefix::prefix_of(base, system)
        &&& has_root(path, system) == has_root(base, system)
        &&& count <= components(path, system).len()
        &&& forall|i: int|
            0 <= i < count ==> #[trigger] component(path, i, system) == component(base, i, system)
    }
}

/// What is left of a path, from where `base` ends in it to the end of its last component.
pub open spec fn rest_under(path: Seq<char>, base: Seq<char>, system: System) -> Seq<char> {
    let skipped = components(base, system).len();
    let count = components(path, system).len();
    let end = end_of(path, count as int, system);
    if is_bare_prefix(base, system) {
        path.subrange(
            if prefix::prefix_of(base, system) is None {
                0
            } else {
                prefix_end(path, system)
            },
            end,
        )
    } else if skipped < count {
        path.subrange(components(path, system)[skipped as int].0, end)
    } else {
        seq![]
    }
}

/// A path relative to `base`, or none if it does not open with `base`.
pub open spec fn relative_to(path: Seq<char>, base: Seq<char>, system: System) -> Option<
    Seq<char>,
> {
    if lies_under(path, base, system) {
        Some(rest_under(path, base, system))
    } else {
        None
    }
}

/// A path, its parent, the parent of that, and so on.
pub open spec fn ancestors_of(path: Seq<char>, system: System) -> Seq<Seq<char>> {
    let count = components(path, system).len();
    seq![path] + Seq::new(count, |i: int| path.take(end_of(path, count - 1 - i, system)))
}

/// Whether a text can be the name of a file on any system.
pub open spec fn is_name(name: Seq<char>) -> bool {
    &&& name.len() > 0
    &&& name != seq!['.']
    &&& name != seq!['.', '.']
    &&& forall|i: int|
        0 <= i < name.len() ==> (#[trigger] name[i]) != '/' && name[i] != '\\' && name[i] != ':'
}

/// What a system itself puts between names.
pub open spec fn main_separator(system: System) -> char {
    match system {
        System::Unix => '/',
        System::Windows => '\\',
    }
}

/// The first `k` components of a path, each with a `\` after it.
pub open spec fn backslashed(path: Seq<char>, k: int, system: System) -> Seq<char>
    decreases k,
{
    if k <= 0 {
        seq![]
    } else {
        backslashed(path, k - 1, system) + component(path, k - 1, system).push('\\')
    }
}

/// Whether a name can be put right after a path: the path is empty, ends with a separator, or is
/// nothing but a drive.
pub open spec fn takes_name(dir: Seq<char>, system: System) -> bool {
    ||| dir.len() == 0
    ||| prefix::separates(dir.last(), prefix::usual_style(system))
    ||| (prefix::prefix_of(dir, system) matches Some(found) && found is Disk && dir.len() == 2)
}

/// The path of what is called `name` in a directory. The path of a verbatim directory is written
/// anew, component by component.
pub open spec fn child_of(dir: Seq<char>, name: Seq<char>, system: System) -> Seq<char> {
    if style_of(dir, system) == Style::Backslash {
        dir.take(prefix_end(dir, system)) + seq!['\\'] + backslashed(
            dir,
            components(dir, system).len() as int,
            system,
        ) + name
    } else if takes_name(dir, system) {
        dir + name
    } else {
        dir.push(main_separator(system)) + name
    }
}

/// The positions in `spans`, as integers.
pub open spec fn spans_of(spans: Seq<(usize, usize)>) -> Seq<(int, int)> {
    spans.map_values(|span: (usize, usize)| (span.0 as int, span.1 as int))
}

/// Components lie within the path, in order and apart from each other.
proof fn lemma_components_bounds(path: Seq<char>, from: int, style: Style)
    requires
        0 <= from,
    ensures
        forall|i: int|
            0 <= i < components_from(path, from, style).len() ==> {
                let span = #[trigger] components_from(path, from, style)[i];
                from <= span.0 < span.1 <= path.len()
            },
        forall|i: int, j: int|
            0 <= i < j < components_from(path, from, style).len() ==> (
            #[trigger] components_from(path, from, style)[i]).1 < (#[trigger] components_from(
                path,
                from,
                style,
            )[j]).0,
    decreases path.len() - from,
{
    if from < path.len() {
        prefix::lemma_first_separator_is_first(path.skip(from), style);
        let end = from + prefix::first_separator(path.skip(from), style);
        let rest = if end < path.len() {
            components_from(path, end + 1, style)
        } else {
            seq![]
        };
        if end < path.len() {
            lemma_components_bounds(path, end + 1, style);
        }
        let all = components_from(path, from, style);
        if names_nothing(path.subrange(from, end), from, style) {
            assert(all == rest);
        } else {
            assert(all == seq![(from, end)] + rest);
            assert forall|i: int| 0 < i < all.len() implies all[i] == rest[i - 1] by {}
        }
    }
}

/// The parts of a path stand one after the other.
pub proof fn lemma_parts_in_order(path: Seq<char>, system: System)
    ensures
        0 <= prefix_end(path, system) <= body_start(path, system) <= head_end(path, system)
            <= path.len(),
        forall|i: int|
            0 <= i < components(path, system).len() ==> {
                let span = #[trigger] components(path, system)[i];
                body_start(path, system) <= span.0 < span.1 <= path.len()
            },
        forall|i: int, j: int|
            0 <= i < j < components(path, system).len() ==> (#[trigger] components(
                path,
                system,
            )[i]).1 < (#[trigger] components(path, system)[j]).0,
{
    prefix::lemma_prefix_fits(path, system);
    lemma_components_bounds(path, body_start(path, system), style_of(path, system));
}

/// A path taken apart.
struct Parts {
    prefix: Option<Prefix<Vec<char>>>,
    prefix_end: usize,
    style: Style,
    rooted: bool,
    head_end: usize,
    spans: Vec<(usize, usize)>,
}

/// Whether `parts` are those of a path.
spec fn are_parts(parts: Parts, path: Seq<char>, system: System) -> bool {
    &&& match parts.prefix {
        Some(found) => prefix::prefix_of(path, system) == Some(found@),
        None => prefix::prefix_of(path, system) is None,
    }
    &&& parts.prefix_end == prefix_end(path, system)
    &&& parts.style == style_of(path, system)
    &&& parts.rooted == has_root(path, system)
    &&& parts.head_end == head_end(path, system)
    &&& spans_of(parts.spans@) == components(path, system)
}

/// The components of a path from position `start` on.
fn find_components(chars: &Vec<char>, start: usize, style: Style) -> (spans: Vec<(usize, usize)>)
    requires
        start <= chars@.len(),
    ensures
        spans_of(spans@) == components_from(chars@, start as int, style),
{
    let mut spans: Vec<(usize, usize)> = Vec::new();
    let mut from: usize = start;
    let ghost whole = components_from(chars@, start as int, style);
    assert(spans_of(spans@) + whole =~= whole);
    while from < chars.len()
        invariant
            from <= chars@.len(),
            spans_of(spans@) + components_from(chars@, from as int, style) == whole,
        decreases chars@.len() - from,
    {
        let end = prefix::end_of_name(chars, from, style);
        let ghost done = spans_of(spans@);
        let ghost part = chars@.subrange(from as int, end as int);
        proof {
            if part == seq!['.'] {
                assert(part.len() == 1 && part[0] == '.');
            }
            if part.len() == 1 && part[0] == '.' {
                assert(part =~= seq!['.']);
            }
        }
        let skip = end == from || (end == from + 1 && chars[from] == '.' && from > 0 && style
            != Style::Backslash);
        assert(skip == names_nothing(part, from as int, style));
        let ghost rest = components_from(
            chars@,
            if end < chars@.len() {
                end + 1
            } else {
                chars@.len() as int
            },
            style,
        );
        if !skip {
            spans.push((from, end));
            assert(spans_of(spans@) =~= done.push((from as int, end as int)));
            assert(spans_of(spans@) + rest =~= done + (seq![(from as int, end as int)] + rest));
        }
        if end < chars.len() {
            from = end + 1;
        } else {
            from = end;
        }
    }
    assert(spans_of(spans@) + components_from(chars@, from as int, style) =~= spans_of(spans@));
    spans
}

/// A path taken apart.
fn take_apart(chars: &Vec<char>, system: System) -> (parts: Parts)
    ensures
        are_parts(parts, chars@, system),
{
    let found = prefix::find_prefix(chars, system);
    proof {
        prefix::lemma_prefix_fits(chars@, system);
        assert(chars.len() == chars@.len());
    }
    let usual = prefix::style_by_default(system);
    let (prefix_end, style, implied, drive): (usize, Style, bool, bool) = match &found {
        Some(known) => {
            let length = prefix::length_of_prefix(known);
            match known {
                Prefix::Verbatim(_) => (length, Style::Backslash, false, false),
                Prefix::VerbatimUnc(_, _) => (length, Style::Backslash, false, false),
                Prefix::VerbatimDisk(_) => (length, Style::Backslash, false, false),
                Prefix::Device(_) => (length, Style::Either, true, false),
                Prefix::Unc(_, _) => (length, Style::Either, true, false),
                Prefix::Disk(_) => (length, Style::Either, false, true),
            }
        },
        None => (0, usual, false, false),
    };
    let marked = prefix_end < chars.len() && prefix::is_separator(chars[prefix_end], usual);
    let body_start: usize = if marked { prefix_end + 1 } else { prefix_end };
    let drive_dot = drive && prefix_end < chars.len() && chars[prefix_end] == '.' && (prefix_end
        + 1 == chars.len() || prefix::is_separator(chars[prefix_end + 1], Style::Either));
    let head_end: usize = if drive_dot { body_start + 1 } else { body_start };
    let spans = find_components(chars, body_start, style);
    Parts { prefix: found, prefix_end, style, rooted: marked || implied, head_end, spans }
}

/// Where the first `k` components of a path end.
fn end_of_components(parts: &Parts, k: usize, path: &Vec<char>, system: System) -> (end: usize)
    requires
        are_parts(*parts, path@, system),
        k <= parts.spans@.len(),
    ensures
        end == end_of(path@, k as int, system),
        parts.prefix_end <= end <= path@.len(),
{
    proof {
        lemma_parts_in_order(path@, system);
    }
    if k > 0 {
        assert(spans_of(parts.spans@)[k - 1].1 == parts.spans@[k - 1].1);
        assert(spans_of(parts.spans@)[k - 1].0 == parts.spans@[k - 1].0);
        parts.spans[k - 1].1
    } else {
        parts.head_end
    }
}

/// The text of the `i`th component of a path.
fn component_text<'a>(path: &'a str, chars: &Vec<char>, parts: &Parts, i: usize, system: System)
    -> (part: &'a str)
    requires
        chars@ == path@,
        are_parts(*parts, path@, system),
        i < parts.spans@.len(),
    ensures
        part@ == component(path@, i as int, system),
{
    let start: usize = parts.spans[i].0;
    let end: usize = parts.spans[i].1;
    proof {
        lemma_parts_in_order(path@, system);
        assert(spans_of(parts.spans@)[i as int] == (start as int, end as int));
    }
    text::piece(path, chars, start, end)
}

/// The last component of a path, unless that is `.` or `..`.
pub fn file_name<'a>(path: &'a str, system: System) -> (name: Option<&'a str>)
    ensures
        match name {
            Some(text) => name_of(path@, system) == Some(text@),
            None => name_of(path@, system) is None,
        },
{
    let chars = text::chars_of(path);
    let parts = take_apart(&chars, system);
    let count: usize = parts.spans.len();
    assert(spans_of(parts.spans@).len() == count);
    if count == 0 {
        return None;
    }
    let last = component_text(path, &chars, &parts, count - 1, system);
    proof {
        reveal_strlit(".");
        reveal_strlit("..");
        assert("."@ =~= seq!['.']);
        assert(".."@ =~= seq!['.', '.']);
    }
    if text::same_text(last, ".") || text::same_text(last, "..") {
        None
    } else {
        Some(last)
    }
}

/// What follows the last dot of a path's file name, unless that dot opens the name.
pub fn extension<'a>(path: &'a str, system: System) -> (ext: Option<&'a str>)
    ensures
        match ext {
            Some(text) => extension_of(path@, system) == Some(text@),
            None => extension_of(path@, system) is None,
        },
{
    let name = match file_name(path, system) {
        Some(name) => name,
        None => return None,
    };
    let chars = text::chars_of(name);
    let mut dot: usize = chars.len();
    assert(chars@.take(dot as int) =~= chars@);
    while dot > 0 && chars[dot - 1] != '.'
        invariant
            dot <= chars@.len(),
            last_index(chars@.take(dot as int), '.') == last_index(chars@, '.'),
        decreases dot,
    {
        assert(chars@.take(dot as int).drop_last() =~= chars@.take(dot - 1));
        dot = dot - 1;
    }
    if dot <= 1 {
        return None;
    }
    let ext = text::piece(name, &chars, dot, chars.len());
    assert(ext@ =~= name@.skip(last_index(name@, '.') + 1));
    Some(ext)
}

/// Whether two paths have the same prefix, or both none.
fn have_same_prefix(a: &Parts, b: &Parts) -> (same: bool)
    ensures
        same == match (a.prefix, b.prefix) {
            (Some(x), Some(y)) => x@ == y@,
            (None, None) => true,
            _ => false,
        },
{
    match (&a.prefix, &b.prefix) {
        (Some(x), Some(y)) => prefix::same_prefix(x, y),
        (None, None) => true,
        _ => false,
    }
}

/// A path relative to `base`, or none if it does not open with `base`.
pub fn strip_prefix<'a>(path: &'a str, base: &str, system: System) -> (rest: Option<&'a str>)
    ensures
        match rest {
            Some(text) => relative_to(path@, base@, system) == Some(text@),
            None => relative_to(path@, base@, system) is None,
        },
{
    let chars = text::chars_of(path);
    let base_chars = text::chars_of(base);
    let parts = take_apart(&chars, system);
    let base_parts = take_apart(&base_chars, system);
    let count: usize = parts.spans.len();
    let skipped: usize = base_parts.spans.len();
    let end = end_of_components(&parts, count, &chars, system);
    let same = have_same_prefix(&parts, &base_parts);
    proof {
        lemma_parts_in_order(path@, system);
        assert(spans_of(parts.spans@).len() == count);
        assert(spans_of(base_parts.spans@).len() == skipped);
        assert(same == (prefix::prefix_of(path@, system) == prefix::prefix_of(base@, system)));
    }
    if skipped == 0 && !base_parts.rooted {
        if base_parts.prefix.is_none() {
            return Some(text::piece(path, &chars, 0, end));
        }
        if !same {
            return None;
        }
        return Some(text::piece(path, &chars, parts.prefix_end, end));
    }
    if !same || parts.rooted != base_parts.rooted || skipped > count {
        return None;
    }
    let mut i: usize = 0;
    while i < skipped
        invariant
            i <= skipped <= count,
            skipped == base_parts.spans@.len(),
            count == parts.spans@.len(),
            chars@ == path@,
            base_chars@ == base@,
            are_parts(parts, path@, system),
            are_parts(base_parts, base@, system),
            skipped == components(base@, system).len(),
            !is_bare_prefix(base@, system),
            forall|j: int|
                0 <= j < i ==> #[trigger] component(path@, j, system) == component(
                    base@,
                    j,
                    system,
                ),
        decreases skipped - i,
    {
        let here = component_text(path, &chars, &parts, i, system);
        let there = component_text(base, &base_chars, &base_parts, i, system);
        if !text::same_text(here, there) {
            assert(component(path@, i as int, system) != component(base@, i as int, system));
            return None;
        }
        i = i + 1;
    }
    if skipped < count {
        let start: usize = parts.spans[skipped].0;
        proof {
            assert(spans_of(parts.spans@)[skipped as int].0 == start);
            if skipped < count - 1 {
                assert(components(path@, system)[skipped as int].1 < components(
                    path@,
                    system,
                )[count - 1].0);
            }
        }
        Some(text::piece(path, &chars, start, end))
    } else {
        let rest = text::piece(path, &chars, 0, 0);
        assert(rest@ =~= rest_under(path@, base@, system));
        Some(rest)
    }
}

/// A path, its parent, the parent of that, and so on.
pub fn ancestors(path: &str, system: System) -> (list: Vec<String>)
    ensures
        text::texts(list@) == ancestors_of(path@, system),
{
    let chars = text::chars_of(path);
    let parts = take_apart(&chars, system);
    let count: usize = parts.spans.len();
    assert(spans_of(parts.spans@).len() == count);
    let mut list: Vec<String> = Vec::new();
    list.push(String::from_str(path));
    let mut k: usize = count;
    while k > 0
        invariant
            k <= count,
            count == parts.spans@.len(),
            count == components(path@, system).len(),
            chars@ == path@,
            are_parts(parts, path@, system),
            text::texts(list@) == ancestors_of(path@, system).take(1 + count - k),
        decreases k,
    {
        let end = end_of_components(&parts, k - 1, &chars, system);
        let ancestor = text::piece(path, &chars, 0, end);
        let ghost before = text::texts(list@);
        list.push(String::from_str(ancestor));
        proof {
            let all = ancestors_of(path@, system);
            assert(ancestor@ =~= path@.take(end_of(path@, k - 1, system)));
            assert(text::texts(list@) =~= before.push(ancestor@));
            assert(all[1 + count - k] == ancestor@);
            assert(all.take(2 + count - k) =~= before.push(ancestor@));
        }
        k = k - 1;
    }
    assert(ancestors_of(path@, system).take(1 + count as int) =~= ancestors_of(path@, system));
    list
}

/// The path of what is called `name` in a directory.
pub fn child(dir: &str, name: &str, system: System) -> (path: String)
    requires
        is_name(name@),
    ensures
        path@ == child_of(dir@, name@, system),
{
    let chars = text::chars_of(dir);
    let parts = take_apart(&chars, system);
    let count: usize = parts.spans.len();
    proof {
        lemma_parts_in_order(dir@, system);
        assert(spans_of(parts.spans@).len() == count);
    }
    if parts.style == Style::Backslash {
        let mut path = String::from_str(text::piece(dir, &chars, 0, parts.prefix_end));
        path.push('\\');
        let ghost head = path@;
        let mut i: usize = 0;
        assert(path@ =~= head + backslashed(dir@, 0, system));
        while i < count
            invariant
                i <= count,
                count == parts.spans@.len(),
                chars@ == dir@,
                are_parts(parts, dir@, system),
                path@ == head + backslashed(dir@, i as int, system),
            decreases count - i,
        {
            path.append(component_text(dir, &chars, &parts, i, system));
            path.push('\\');
            assert(path@ =~= head + backslashed(dir@, i + 1, system));
            i = i + 1;
        }
        path.append(name);
        assert(head =~= dir@.take(prefix_end(dir@, system)) + seq!['\\']);
        return path;
    }
    let drive = match &parts.prefix {
        Some(Prefix::Disk(_)) => chars.len() == 2,
        _ => false,
    };
    let mut path = String::from_str(dir);
    if chars.len() > 0 && !prefix::is_separator(
        chars[chars.len() - 1],
        prefix::style_by_default(system),
    ) && !drive {
        path.push(
            match system {
                System::Unix => '/',
                System::Windows => '\\',
            },
        );
    }
    path.append(name);
    path
}

/// Spans moved by some distance.
pub open spec fn moved(spans: Seq<(int, int)>, by: int) -> Seq<(int, int)> {
    spans.map_values(|span: (int, int)| (span.0 + by, span.1 + by))
}

/// The components of a path are those before a separator in it and those after it.
pub proof fn lemma_components_before(
    base: Seq<char>,
    separator: char,
    rest: Seq<char>,
    from: int,
    style: Style,
)
    requires
        0 <= from <= base.len(),
        prefix::separates(separator, style),
    ensures
        components_from(base + seq![separator] + rest, from, style) == components_from(
            base,
            from,
            style,
        ) + components_from(base + seq![separator] + rest, base.len() as int + 1, style),
    decreases base.len() - from,
{
    let path = base + seq![separator] + rest;
    let tail = path.skip(from);
    let base_tail = base.skip(from);
    let n = prefix::first_separator(base_tail, style) as int;
    prefix::lemma_first_separator_is_first(base_tail, style);
    assert forall|i: int| 0 <= i < n implies !prefix::separates(#[trigger] tail[i], style) by {
        assert(tail[i] == base_tail[i]);
    }
    assert(prefix::separates(tail[n], style)) by {
        if n < base_tail.len() {
            assert(tail[n] == base_tail[n]);
        }
    }
    prefix::lemma_first_separator(tail, style, n);
    let end = from + n;
    assert(path.subrange(from, end) =~= base.subrange(from, end));
    let after = components_from(path, base.len() as int + 1, style);
    if from < base.len() {
        if end < base.len() {
            lemma_components_before(base, separator, rest, end + 1, style);
            let near = components_from(base, end + 1, style);
            assert(seq![(from, end)] + (near + after) =~= (seq![(from, end)] + near) + after);
        } else {
            assert(Seq::<(int, int)>::empty() + after =~= after);
        }
        assert(components_from(path, from, style) =~= components_from(base, from, style) + after);
    } else {
        assert(path.subrange(from, end).len() == 0);
        assert(components_from(path, from, style) == components_from(path, from + 1, style));
        assert(components_from(base, from, style) + after =~= after);
    }
}

proof fn lemma_components_moved(front: Seq<char>, name: Seq<char>, from: int, style: Style)
    requires
        0 <= from <= name.len(),
        from > 0 || front.len() == 0 || (name.len() > 0 && name.subrange(
            0,
            prefix::first_separator(name, style) as int,
        ) != seq!['.']),
    ensures
        components_from(front + name, front.len() + from, style) == moved(
            components_from(name, from, style),
            front.len() as int,
        ),
    decreases name.len() - from,
{
    let path = front + name;
    let by = front.len() as int;
    assert(path.skip(by + from) =~= name.skip(from));
    if from < name.len() {
        let n = prefix::first_separator(name.skip(from), style) as int;
        prefix::lemma_first_separator_is_first(name.skip(from), style);
        let end = from + n;
        assert(path.subrange(by + from, by + end) =~= name.subrange(from, end));
        if from == 0 {
            assert(name.skip(0) =~= name);
        }
        if end < name.len() {
            lemma_components_moved(front, name, end + 1, style);
        }
        let rest = if end < name.len() {
            components_from(name, end + 1, style)
        } else {
            seq![]
        };
        assert(moved(seq![(from, end)] + rest, by) =~= seq![(by + from, by + end)] + moved(
            rest,
            by,
        ));
        assert(moved(Seq::<(int, int)>::empty(), by) =~= seq![]);
    } else {
        assert(moved(components_from(name, from, style), by) =~= seq![]);
    }
}

/// A path that starts with a component other than `.` and ends with a component.
pub open spec fn is_plain(name: Seq<char>, system: System) -> bool {
    &&& prefix::prefix_of(name, system) is None
    &&& components(name, system).len() > 0
    &&& components(name, system)[0].0 == 0
    &&& component(name, 0, system) != seq!['.']
    &&& components(name, system).last().1 == name.len()
}

proof fn lemma_plain_name_starts(name: Seq<char>, system: System)
    requires
        is_plain(name, system),
    ensures
        name.len() > 0,
        body_start(name, system) == 0,
        style_of(name, system) == prefix::usual_style(system),
        name.subrange(
            0,
            prefix::first_separator(name, prefix::usual_style(system)) as int,
        ) != seq!['.'],
{
    let style = prefix::usual_style(system);
    lemma_parts_in_order(name, system);
    assert(name.skip(0) =~= name);
    let end = prefix::first_separator(name, style) as int;
    prefix::lemma_first_separator_is_first(name, style);
    if names_nothing(name.subrange(0, end), 0, style) {
        if end < name.len() {
            lemma_components_bounds(name, end + 1, style);
            assert(components(name, system) == components_from(name, end + 1, style));
        }
        assert(false);
    }
    assert(components(name, system)[0] == (0int, end));
}

/// The path of what has the path `name` within a directory.
pub open spec fn path_within(dir: Seq<char>, name: Seq<char>, system: System) -> Seq<char> {
    if prefix::separates(dir.last(), prefix::usual_style(system)) {
        dir + name
    } else {
        dir.push(main_separator(system)) + name
    }
}

/// Whether what a directory opens with stays what it is when a name is put after the directory.
/// On Unix it always does. On Windows `\\server` and a name make a share, a prefix alone gets a
/// root, and what follows a verbatim prefix is taken word for word.
pub open spec fn keeps_its_head(dir: Seq<char>, path: Seq<char>, system: System) -> bool {
    ||| system == System::Unix
    ||| {
        &&& !is_bare_prefix(dir, system)
        &&& style_of(dir, system) == Style::Either
        &&& prefix::prefix_of(path, system) == prefix::prefix_of(dir, system)
        &&& body_start(path, system) == body_start(dir, system)
    }
}

proof fn lemma_unix_directory(dir: Seq<char>)
    requires
        dir.len() > 0,
    ensures
        !is_bare_prefix(dir, System::Unix),
{
    if !has_root(dir, System::Unix) && components(dir, System::Unix).len() == 0 {
        assert(dir.skip(0) =~= dir);
        prefix::lemma_first_separator_is_first(dir, Style::Slash);
        let end = prefix::first_separator(dir, Style::Slash) as int;
        assert(!names_nothing(dir.subrange(0, end), 0, Style::Slash));
        assert(false);
    }
}

/// The components of a path within a directory are those of the directory and those of the path
/// within it.
proof fn lemma_components_within(dir: Seq<char>, name: Seq<char>, start: int, system: System)
    requires
        0 <= start <= dir.len(),
        0 < dir.len(),
        name.len() > 0,
        name.subrange(
            0,
            prefix::first_separator(name, prefix::usual_style(system)) as int,
        ) != seq!['.'],
    ensures
        ({
            let style = prefix::usual_style(system);
            let path = path_within(dir, name, system);
            components_from(path, start, style) == components_from(dir, start, style) + moved(
                components_from(name, 0, style),
                path.len() - name.len(),
            )
        }),
{
    let style = prefix::usual_style(system);
    let path = path_within(dir, name, system);
    if !prefix::separates(dir.last(), style) {
        let front = dir.push(main_separator(system));
        assert(path =~= dir + seq![main_separator(system)] + name);
        lemma_components_before(dir, main_separator(system), name, start, style);
        lemma_components_moved(front, name, 0, style);
    } else {
        lemma_components_moved(dir, name, 0, style);
        if start < dir.len() {
            let above = dir.drop_last();
            assert(path =~= above + seq![dir.last()] + name);
            assert(dir =~= above + seq![dir.last()] + Seq::<char>::empty());
            lemma_components_before(above, dir.last(), name, start, style);
            lemma_components_before(above, dir.last(), Seq::empty(), start, style);
            assert(components_from(dir, dir.len() as int, style) =~= seq![]);
            assert(components_from(dir, start, style) =~= components_from(above, start, style));
        } else {
            assert(components_from(dir, start, style) =~= seq![]);
            assert(components_from(path, start, style) =~= components_from(dir, start, style)
                + components_from(path, start, style));
        }
    }
}

/// A file in a directory has, relative to the directory, the path it was given there; and its
/// name is the one it has there.
pub proof fn law_file_in_directory(dir: Seq<char>, name: Seq<char>, system: System)
    requires
        dir.len() > 0,
        is_plain(name, system),
        keeps_its_head(dir, path_within(dir, name, system), system),
    ensures
        relative_to(path_within(dir, name, system), dir, system) == Some(name),
        name_of(path_within(dir, name, system), system) == name_of(name, system),
        extension_of(path_within(dir, name, system), system) == extension_of(name, system),
{
    let style = prefix::usual_style(system);
    let path = path_within(dir, name, system);
    let start = body_start(dir, system);
    let by = path.len() - name.len();
    lemma_plain_name_starts(name, system);
    lemma_parts_in_order(dir, system);
    lemma_parts_in_order(name, system);
    if system == System::Unix {
        assert(path[0] == dir[0]);
        lemma_unix_directory(dir);
    }
    lemma_components_within(dir, name, start, system);
    let above = components(dir, system);
    let below = components(name, system);
    let all = components(path, system);
    assert(all == above + moved(below, by));
    assert forall|i: int| 0 <= i < above.len() implies #[trigger] component(path, i, system)
        == component(dir, i, system) by {
        assert(all[i] == above[i]);
        assert(path.subrange(all[i].0, all[i].1) =~= dir.subrange(all[i].0, all[i].1));
    }
    assert(all[above.len() as int] == (by, below[0].1 + by));
    assert(all.last() == (below.last().0 + by, name.len() + by));
    assert(path.subrange(by, path.len() as int) =~= name);
    assert(component(path, all.len() - 1, system) =~= component(
        name,
        below.len() - 1,
        system,
    ));
}

/// One name more after a separator is one component more, unless it is empty or a `.` that names
/// nothing; a name alone is the only component.
pub proof fn law_next_component(
    base: Seq<char>,
    separator: char,
    part: Seq<char>,
    from: int,
    style: Style,
)
    requires
        0 <= from <= base.len(),
        prefix::separates(separator, style),
        forall|i: int| 0 <= i < part.len() ==> !prefix::separates(#[trigger] part[i], style),
    ensures
        components_from(base + seq![separator] + part, from, style) == components_from(
            base,
            from,
            style,
        ) + (if part.len() == 0 || (part == seq!['.'] && style != Style::Backslash) {
            Seq::<(int, int)>::empty()
        } else {
            seq![(base.len() + 1int, base.len() + 1int + part.len())]
        }),
        components_from(part, 0, style) == (if part.len() == 0 {
            Seq::<(int, int)>::empty()
        } else {
            seq![(0int, part.len() as int)]
        }),
{
    let path = base + seq![separator] + part;
    let start = base.len() as int + 1;
    lemma_components_before(base, separator, part, from, style);
    prefix::lemma_first_separator(part, style, part.len() as int);
    assert(path.skip(start) =~= part);
    assert(path.subrange(start, path.len() as int) =~= part);
    assert(part.skip(0) =~= part);
    assert(part.subrange(0, part.len() as int) =~= part);
    assert(components_from(part, 0, style) =~= (if part.len() == 0 {
        Seq::<(int, int)>::empty()
    } else {
        seq![(0int, part.len() as int)]
    }));
    if part.len() > 0 {
        assert(components_from(path, start, style) =~= if part == seq!['.'] && style
            != Style::Backslash {
            Seq::<(int, int)>::empty()
        } else {
            seq![(start, start + part.len())]
        });
    }
}

/// On Unix a path has no prefix, it has a root exactly if it starts with a `/`, and only `/`
/// separates its components.
pub proof fn law_unix_paths(path: Seq<char>)
    ensures
        prefix::prefix_of(path, System::Unix) is None,
        has_root(path, System::Unix) <==> path.len() > 0 && path[0] == '/',
        components(path, System::Unix) == components_from(
            path,
            if path.len() > 0 && path[0] == '/' {
                1
            } else {
                0
            },
            Style::Slash,
        ),
{
}

/// On Windows a path has a root if a separator opens it or follows its drive, and always on a share
/// or a device; `/` and `\\` alike separate its components, unless it is verbatim.
pub proof fn law_windows_paths(path: Seq<char>)
    ensures
        ({
            let opens = |at: int| at < path.len() && (path[at] == '/' || path[at] == '\\');
            match prefix::prefix_of(path, System::Windows) {
                None => {
                    &&& has_root(path, System::Windows) == opens(0)
                    &&& components(path, System::Windows) == components_from(
                        path,
                        if opens(0) {
                            1
                        } else {
                            0
                        },
                        Style::Either,
                    )
                },
                Some(Prefix::Disk(_)) => {
                    &&& has_root(path, System::Windows) == opens(2)
                    &&& components(path, System::Windows) == components_from(
                        path,
                        if opens(2) {
                            3
                        } else {
                            2
                        },
                        Style::Either,
                    )
                },
                Some(Prefix::Unc(_, _)) => has_root(path, System::Windows) && style_of(
                    path,
                    System::Windows,
                ) == Style::Either,
                Some(Prefix::Device(_)) => has_root(path, System::Windows) && style_of(
                    path,
                    System::Windows,
                ) == Style::Either,
                Some(found) => style_of(path, System::Windows) == Style::Backslash && has_root(
                    path,
                    System::Windows,
                ) == opens(prefix::prefix_len(found) as int),
            }
        }),
{
}

/// Whether what two paths open with is the same, and they are not verbatim.
pub open spec fn same_head(a: Seq<char>, b: Seq<char>, system: System) -> bool {
    &&& style_of(a, system) != Style::Backslash
    &&& prefix::prefix_of(a, system) == prefix::prefix_of(b, system)
    &&& body_start(a, system) == body_start(b, system)
    &&& head_end(a, system) == head_end(b, system)
}

/// Whether a path ends where its last component does, or with its head if it has none.
pub open spec fn ends_with_component(path: Seq<char>, system: System) -> bool {
    end_of(path, components(path, system).len() as int, system) == path.len()
}

/// On Unix a name changes nothing of what the directory before it opens with.
pub proof fn law_unix_heads(dir: Seq<char>, name: Seq<char>)
    requires
        is_name(name),
    ensures
        same_head(dir, child_of(dir, name, System::Unix), System::Unix),
{
    let path = child_of(dir, name, System::Unix);
    if dir.len() > 0 {
        assert(path[0] == dir[0]);
    } else {
        assert(path =~= name);
        assert(name[0] != '/');
    }
}

proof fn lemma_components_of_child(dir: Seq<char>, name: Seq<char>, system: System)
    requires
        is_name(name),
        ends_with_component(dir, system),
        same_head(dir, child_of(dir, name, system), system),
    ensures
        ({
            let path = child_of(dir, name, system);
            &&& path.len() >= dir.len() + name.len()
            &&& path.take(dir.len() as int) == dir
            &&& path.skip(path.len() - name.len()) == name
            &&& components(path, system) == components(dir, system).push(
                (path.len() - name.len(), path.len() as int),
            )
        }),
{
    let path = child_of(dir, name, system);
    let style = style_of(dir, system);
    let start = body_start(dir, system);
    lemma_parts_in_order(dir, system);
    lemma_parts_in_order(path, system);
    assert forall|i: int| 0 <= i < name.len() implies !prefix::separates(
        #[trigger] name[i],
        style,
    ) by {}
    assert(path.take(dir.len() as int) =~= dir);
    assert(path.skip(path.len() - name.len()) =~= name);
    let count = components(dir, system).len() as int;
    if takes_name(dir, system) {
        // Nothing but a head can take a name without a separator.
        if count > 0 {
            let last = components(dir, system)[count - 1];
            lemma_component_ends_plain(dir, start, style);
            assert(!prefix::separates(dir[last.1 - 1], style));
            assert(false);
        }
        assert(dir.len() == head_end(dir, system));
        if dir.len() > start {
            // A drive with a dot after it is longer than a drive, and ends with no separator.
            assert(has_drive_dot(dir, system));
            assert(false);
        }
        prefix::lemma_first_separator(name, style, name.len() as int);
        assert(path.skip(start) =~= name);
        assert(path.subrange(start, path.len() as int) =~= name);
        assert(components_from(path, start, style) =~= seq![(start, path.len() as int)]);
        assert(components(dir, system) =~= seq![]);
    } else {
        let separator = main_separator(system);
        assert(path =~= dir + seq![separator] + name);
        law_next_component(dir, separator, name, start, style);
        assert(components(path, system) =~= components(dir, system).push(
            (path.len() - name.len(), path.len() as int),
        ));
    }
}

/// No component holds a separator.
proof fn lemma_component_ends_plain(path: Seq<char>, from: int, style: Style)
    requires
        0 <= from,
    ensures
        forall|i: int|
            0 <= i < components_from(path, from, style).len() ==> {
                let span = #[trigger] components_from(path, from, style)[i];
                !prefix::separates(path[span.1 - 1], style)
            },
    decreases path.len() - from,
{
    if from < path.len() {
        let tail = path.skip(from);
        prefix::lemma_first_separator_is_first(tail, style);
        let end = from + prefix::first_separator(tail, style);
        let rest = if end < path.len() {
            components_from(path, end + 1, style)
        } else {
            seq![]
        };
        if end < path.len() {
            lemma_component_ends_plain(path, end + 1, style);
        }
        let all = components_from(path, from, style);
        assert forall|i: int| 0 <= i < all.len() implies {
            let span = #[trigger] all[i];
            !prefix::separates(path[span.1 - 1], style)
        } by {
            if names_nothing(path.subrange(from, end), from, style) {
                assert(all[i] == rest[i]);
            } else if i > 0 {
                assert(all[i] == rest[i - 1]);
            } else {
                assert(all[0] == (from, end));
                assert(path.subrange(from, end).len() > 0);
                assert(tail[end - 1 - from] == path[end - 1]);
            }
        }
    }
}

/// What is called `name` in a directory has that name, lies in the directory and has, besides
/// itself, the ancestors of the directory.
pub proof fn law_child_of_a_directory(dir: Seq<char>, name: Seq<char>, system: System)
    requires
        is_name(name),
        ends_with_component(dir, system),
        same_head(dir, child_of(dir, name, system), system),
    ensures
        name_of(child_of(dir, name, system), system) == Some(name),
        ancestors_of(child_of(dir, name, system), system) == seq![child_of(dir, name, system)]
            + ancestors_of(dir, system),
{
    let path = child_of(dir, name, system);
    lemma_components_of_child(dir, name, system);
    lemma_parts_in_order(dir, system);
    let count = components(dir, system).len() as int;
    assert(component(path, count, system) =~= name);
    let all = ancestors_of(path, system);
    let above = ancestors_of(dir, system);
    assert forall|i: int| 0 <= i < above.len() implies all[i + 1] == #[trigger] above[i] by {
        let k = count - i;
        assert(all[i + 1] == path.take(end_of(path, k, system)));
        if k > 0 {
            assert(components(path, system)[k - 1] == components(dir, system)[k - 1]);
        }
        assert(end_of(path, k, system) == end_of(dir, k, system));
        assert(path.take(end_of(dir, k, system)) =~= dir.take(end_of(dir, k, system)));
        if i == 0 {
            assert(dir.take(dir.len() as int) =~= dir);
        }
    }
    assert(all =~= seq![path] + above);
}

/// A path is its own first ancestor, and has one more for each of its components.
pub proof fn law_ancestors(path: Seq<char>, system: System)
    ensures
        ancestors_of(path, system).len() == 1 + components(path, system).len(),
        ancestors_of(path, system)[0] == path,
        forall|i: int|
            0 <= i < ancestors_of(path, system).len() ==> (#[trigger] ancestors_of(
                path,
                system,
            )[i]).is_prefix_of(path),
        forall|i: int|
            0 <= i < components(path, system).len() - 1 ==> (#[trigger] ancestors_of(
                path,
                system,
            )[i + 1]) == path.take(
                components(path, system)[components(path, system).len() - 2 - i].1,
            ),
        system == System::Unix && components(path, system).len() > 0 ==> ancestors_of(
            path,
            system,
        ).last() == (if path[0] == '/' {
            seq!['/']
        } else {
            seq![]
        }),
{
    lemma_parts_in_order(path, system);
    if system == System::Unix && components(path, system).len() > 0 {
        let span = components(path, system)[0];
        assert(ancestors_of(path, system).last() =~= (if path[0] == '/' {
            seq!['/']
        } else {
            seq![]
        }));
    }
    assert forall|i: int| 0 <= i < ancestors_of(path, system).len() implies (
    #[trigger] ancestors_of(path, system)[i]).is_prefix_of(path) by {
        let above = ancestors_of(path, system)[i];
        assert(above =~= path.subrange(0, above.len() as int));
    }
}

proof fn lemma_last_dot(stem: Seq<char>, ext: Seq<char>)
    requires
        forall|i: int| 0 <= i < ext.len() ==> ext[i] != '.',
    ensures
        last_index(stem + seq!['.'] + ext, '.') == stem.len(),
        last_index(ext, '.') == -1,
    decreases ext.len(),
{
    let whole = stem + seq!['.'] + ext;
    if ext.len() == 0 {
        assert(whole.last() == '.');
    } else {
        assert(whole.drop_last() =~= stem + seq!['.'] + ext.drop_last());
        lemma_last_dot(stem, ext.drop_last());
    }
}

/// The extension of a file is what follows the last dot of its name. A name without dot has none,
/// nor has one with a dot at its start only.
pub proof fn law_extensions(path: Seq<char>, stem: Seq<char>, ext: Seq<char>, system: System)
    requires
        forall|i: int| 0 <= i < ext.len() ==> ext[i] != '.',
    ensures
        name_of(path, system) == Some(stem + seq!['.'] + ext) && stem.len() > 0 ==> extension_of(
            path,
            system,
        ) == Some(ext),
        name_of(path, system) == Some(stem + seq!['.'] + ext) && stem.len() == 0 ==> extension_of(
            path,
            system,
        ) is None,
        name_of(path, system) == Some(ext) ==> extension_of(path, system) is None,
        name_of(path, system) is None ==> extension_of(path, system) is None,
{
    lemma_last_dot(stem, ext);
    assert((stem + seq!['.'] + ext).skip(stem.len() as int + 1) =~= ext);
}

/// A path has a path relative to a directory exactly if the prefix, the root and the components of
/// the directory are the first ones of the path; relative to itself it has the empty path.
pub proof fn law_relative_paths(path: Seq<char>, base: Seq<char>, system: System)
    requires
        !is_bare_prefix(base, system),
    ensures
        relative_to(path, base, system) is Some <==> {
            &&& prefix::prefix_of(path, system) == prefix::prefix_of(base, system)
            &&& has_root(path, system) == has_root(base, system)
            &&& components(base, system).len() <= components(path, system).len()
            &&& forall|i: int|
                0 <= i < components(base, system).len() ==> #[trigger] component(path, i, system)
                    == component(base, i, system)
        },
        relative_to(base, base, system) == Some(Seq::<char>::empty()),
        relative_to(path, base, system) is Some && components(base, system).len() < components(
            path,
            system,
        ).len() ==> relative_to(path, base, system) == Some(
            path.subrange(
                components(path, system)[components(base, system).len() as int].0,
                components(path, system).last().1,
            ),
        ),
        relative_to(path, base, system) is Some && components(base, system).len() == components(
            path,
            system,
        ).len() ==> relative_to(path, base, system) == Some(Seq::<char>::empty()),
{
}

/// The name of a file is the last component of its path, unless that is a `.` or a `..`.
pub proof fn law_name_is_the_last_component(path: Seq<char>, system: System)
    ensures
        ({
            let spans = components(path, system);
            let last = path.subrange(spans.last().0, spans.last().1);
            let named = spans.len() > 0 && last != "."@ && last != ".."@;
            name_of(path, system) == (if named {
                Some(last)
            } else {
                None
            })
        }),
{
    reveal_strlit(".");
    reveal_strlit("..");
    assert("."@ =~= seq!['.']);
    assert(".."@ =~= seq!['.', '.']);
}

/// A separator at the end of a path changes none of its components, nor its name.
pub proof fn law_separator_at_the_end(path: Seq<char>)
    requires
        path.len() > 0,
    ensures
        components(path.push('/'), System::Unix) == components(path, System::Unix),
        name_of(path.push('/'), System::Unix) == name_of(path, System::Unix),
{
    let longer = path.push('/');
    let none = Seq::<char>::empty();
    lemma_parts_in_order(path, System::Unix);
    assert(longer =~= path + seq!['/'] + none);
    assert(longer[0] == path[0]);
    law_next_component(path, '/', none, body_start(path, System::Unix), Style::Slash);
    assert(components(longer, System::Unix) =~= components(path, System::Unix));
    let count = components(path, System::Unix).len();
    if count > 0 {
        assert(component(longer, count - 1, System::Unix) =~= component(
            path,
            count - 1,
            System::Unix,
        ));
    }
}

/// A name follows its directory after a separator of the system, or at once if the directory is
/// empty, ends with a separator or is nothing but a drive; unless the directory is verbatim.
pub proof fn law_names_follow_directories(dir: Seq<char>, name: Seq<char>)
    ensures
        dir.len() == 0 || dir.last() == '/' ==> child_of(dir, name, System::Unix) == dir + name,
        dir.len() > 0 && dir.last() != '/' ==> child_of(dir, name, System::Unix) == dir + "/"@ + name,
        style_of(dir, System::Windows) != Style::Backslash ==> child_of(dir, name, System::Windows)
            == (if dir.len() == 0 || dir.last() == '/' || dir.last() == '\\' || (dir.len() == 2
            && prefix::is_letter(dir[0]) && dir[1] == ':') {
            dir + name
        } else {
            dir + "\\"@ + name
        }),
{
    reveal_strlit("/");
    reveal_strlit("\\");
    assert(dir.push('/') =~= dir + "/"@);
    assert(dir.push('\\') =~= dir + "\\"@);
}

} // verus!
