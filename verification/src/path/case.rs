//! What the case of ASCII letters means for a path: little.
use vstd::prelude::*;

use crate::path;
use crate::path::prefix;
use crate::path::prefix::{Prefix, Style, System};
use crate::text;

verus! {

/// Whether two texts are the same but for the case of ASCII letters.
pub open spec fn alike(a: Seq<char>, b: Seq<char>) -> bool {
    text::ascii_lower(a) == text::ascii_lower(b)
}

/// Whether two optional texts are the same but for the case of ASCII letters.
pub open spec fn both_alike(a: Option<Seq<char>>, b: Option<Seq<char>>) -> bool {
    match (a, b) {
        (Some(x), Some(y)) => alike(x, y),
        (None, None) => true,
        _ => false,
    }
}

/// Texts that are alike have the same length, and the same characters but for letters.
pub proof fn lemma_alike(a: Seq<char>, b: Seq<char>)
    requires
        alike(a, b),
    ensures
        a.len() == b.len(),
        forall|i: int|
            0 <= i < a.len() ==> #[trigger] a[i] == b[i] || (prefix::is_letter(a[i])
                && prefix::is_letter(b[i])),
{
    assert(text::ascii_lower(a).len() == a.len() && text::ascii_lower(b).len() == b.len());
    assert forall|i: int| 0 <= i < a.len() implies #[trigger] a[i] == b[i] || (prefix::is_letter(
        a[i],
    ) && prefix::is_letter(b[i])) by {
        assert(text::ascii_lower(a)[i] == text::ascii_lower_char(a[i]));
        assert(text::ascii_lower(b)[i] == text::ascii_lower_char(b[i]));
    }
}

/// Pieces at the same place of texts that are alike are alike.
pub proof fn lemma_alike_pieces(a: Seq<char>, b: Seq<char>, from: int, to: int)
    requires
        alike(a, b),
        0 <= from <= to <= a.len(),
    ensures
        alike(a.subrange(from, to), b.subrange(from, to)),
{
    lemma_alike(a, b);
    let x = a.subrange(from, to);
    let y = b.subrange(from, to);
    assert forall|i: int| 0 <= i < x.len() implies text::ascii_lower(x)[i] == text::ascii_lower(
        y,
    )[i] by {
        assert(text::ascii_lower(a)[from + i] == text::ascii_lower_char(a[from + i]));
        assert(text::ascii_lower(b)[from + i] == text::ascii_lower_char(b[from + i]));
    }
    assert(text::ascii_lower(x) =~= text::ascii_lower(y));
}

proof fn lemma_alike_tails(a: Seq<char>, b: Seq<char>, from: int)
    requires
        alike(a, b),
        0 <= from <= a.len(),
    ensures
        alike(a.skip(from), b.skip(from)),
{
    lemma_alike(a, b);
    lemma_alike_pieces(a, b, from, a.len() as int);
    assert(a.subrange(from, a.len() as int) =~= a.skip(from));
    assert(b.subrange(from, b.len() as int) =~= b.skip(from));
}

/// A text of dots is alike to no other text.
proof fn lemma_alike_dots(a: Seq<char>, b: Seq<char>)
    requires
        alike(a, b),
    ensures
        a == seq!['.'] <==> b == seq!['.'],
        a == seq!['.', '.'] <==> b == seq!['.', '.'],
{
    lemma_alike(a, b);
    let one = seq!['.'];
    let two = seq!['.', '.'];
    if a.len() == 1 {
        assert(a[0] == b[0] || (prefix::is_letter(a[0]) && prefix::is_letter(b[0])));
        assert(a =~= one <==> b =~= one);
    }
    if a.len() == 2 {
        assert(a[0] == b[0] || (prefix::is_letter(a[0]) && prefix::is_letter(b[0])));
        assert(a[1] == b[1] || (prefix::is_letter(a[1]) && prefix::is_letter(b[1])));
        assert(a =~= two <==> b =~= two);
    }
}

proof fn lemma_same_first_separator(a: Seq<char>, b: Seq<char>, style: Style)
    requires
        alike(a, b),
    ensures
        prefix::first_separator(a, style) == prefix::first_separator(b, style),
{
    lemma_alike(a, b);
    prefix::lemma_first_separator_is_first(a, style);
    let n = prefix::first_separator(a, style) as int;
    assert forall|i: int| 0 <= i < n implies !prefix::separates(#[trigger] b[i], style) by {
        assert(!prefix::separates(a[i], style));
        assert(a[i] == b[i] || (prefix::is_letter(a[i]) && prefix::is_letter(b[i])));
    }
    if n < a.len() {
        assert(a[n] == b[n] || (prefix::is_letter(a[n]) && prefix::is_letter(b[n])));
    }
    prefix::lemma_first_separator(b, style, n);
}

/// The names that two texts that are alike start with are equally long, and so are the names that
/// follow.
proof fn lemma_same_names(a: Seq<char>, b: Seq<char>, style: Style)
    requires
        alike(a, b),
    ensures
        prefix::first_name(a, style).len() == prefix::first_name(b, style).len(),
        prefix::first_name(prefix::after_first_name(a, style), style).len() == prefix::first_name(
            prefix::after_first_name(b, style),
            style,
        ).len(),
{
    lemma_alike(a, b);
    lemma_same_first_separator(a, b, style);
    prefix::lemma_first_separator_is_first(a, style);
    let n = prefix::first_separator(a, style) as int;
    if n < a.len() {
        lemma_alike_tails(a, b, n + 1);
        lemma_same_first_separator(a.skip(n + 1), b.skip(n + 1), style);
        prefix::lemma_first_separator_is_first(a.skip(n + 1), style);
        prefix::lemma_first_separator_is_first(b.skip(n + 1), style);
    }
}

/// Whether two optional prefixes are of one kind and equally long.
pub open spec fn same_shape(a: Option<Prefix<Seq<char>>>, b: Option<Prefix<Seq<char>>>) -> bool {
    match (a, b) {
        (Some(x), Some(y)) => {
            &&& prefix::prefix_len(x) == prefix::prefix_len(y)
            &&& prefix::is_verbatim(x) == prefix::is_verbatim(y)
            &&& prefix::implies_root(x) == prefix::implies_root(y)
            &&& x is Disk == y is Disk
        },
        (None, None) => true,
        _ => false,
    }
}

/// Whether the case of letters means nothing for the prefixes of two paths: on Windows, `UNC` after
/// `\\?\` is a keyword only in upper case.
pub open spec fn same_keywords(a: Seq<char>, b: Seq<char>, system: System) -> bool {
    ||| system == System::Unix
    ||| !prefix::opens_verbatim(a)
    ||| prefix::goes_on_unc(a) == prefix::goes_on_unc(b)
}

proof fn lemma_same_opening(a: Seq<char>, b: Seq<char>)
    requires
        alike(a, b),
    ensures
        prefix::opens_verbatim(a) == prefix::opens_verbatim(b),
        prefix::opens_device(a) == prefix::opens_device(b),
        prefix::opens_twice(a) == prefix::opens_twice(b),
        prefix::drive_of(a) is Some == prefix::drive_of(b) is Some,
{
    lemma_alike(a, b);
    if a.len() >= 2 {
        assert(a[0] == b[0] || (prefix::is_letter(a[0]) && prefix::is_letter(b[0])));
        assert(a[1] == b[1] || (prefix::is_letter(a[1]) && prefix::is_letter(b[1])));
    }
    if a.len() >= 4 {
        assert(a[2] == b[2] || (prefix::is_letter(a[2]) && prefix::is_letter(b[2])));
        assert(a[3] == b[3] || (prefix::is_letter(a[3]) && prefix::is_letter(b[3])));
    }
}

proof fn lemma_same_prefix_shape(a: Seq<char>, b: Seq<char>, system: System)
    requires
        alike(a, b),
        same_keywords(a, b, system),
    ensures
        same_shape(prefix::prefix_of(a, system), prefix::prefix_of(b, system)),
{
    lemma_alike(a, b);
    lemma_same_opening(a, b);
    if a.len() >= 2 {
        lemma_alike_tails(a, b, 2);
        lemma_same_names(a.skip(2), b.skip(2), Style::Either);
    }
    if a.len() >= 4 {
        let x = a.skip(4);
        let y = b.skip(4);
        lemma_alike_tails(a, b, 4);
        lemma_same_names(x, y, Style::Either);
        lemma_same_names(x, y, Style::Backslash);
        lemma_same_opening(x, y);
        lemma_alike(x, y);
        if x.len() > 2 {
            assert(x[2] == y[2] || (prefix::is_letter(x[2]) && prefix::is_letter(y[2])));
        }
    }
    if a.len() >= 8 {
        lemma_alike_tails(a, b, 8);
        lemma_same_names(a.skip(8), b.skip(8), Style::Backslash);
    }
}

proof fn lemma_same_body_start(a: Seq<char>, b: Seq<char>, system: System)
    requires
        alike(a, b),
        same_keywords(a, b, system),
    ensures
        path::body_start(a, system) == path::body_start(b, system),
        path::style_of(a, system) == path::style_of(b, system),
{
    lemma_alike(a, b);
    lemma_same_prefix_shape(a, b, system);
    let at = path::prefix_end(a, system);
    if at < a.len() {
        assert(a[at] == b[at] || (prefix::is_letter(a[at]) && prefix::is_letter(b[at])));
    }
}

proof fn lemma_same_components_from(a: Seq<char>, b: Seq<char>, from: int, style: Style)
    requires
        alike(a, b),
        0 <= from,
    ensures
        path::components_from(a, from, style) == path::components_from(b, from, style),
    decreases a.len() - from,
{
    lemma_alike(a, b);
    if from < a.len() {
        lemma_alike_tails(a, b, from);
        lemma_same_first_separator(a.skip(from), b.skip(from), style);
        prefix::lemma_first_separator_is_first(a.skip(from), style);
        let end = from + prefix::first_separator(a.skip(from), style);
        lemma_alike_pieces(a, b, from, end);
        lemma_alike_dots(a.subrange(from, end), b.subrange(from, end));
        if end < a.len() {
            lemma_same_components_from(a, b, end + 1, style);
        }
    }
}

/// The components of a path after a later start, where a name starts, end with the same one.
proof fn lemma_same_last_component(s: Seq<char>, early: int, late: int, style: Style)
    requires
        0 <= early < late <= s.len(),
        prefix::separates(s[late - 1], style),
        path::components_from(s, late, style).len() > 0,
    ensures
        path::components_from(s, early, style).len() > 0,
        path::components_from(s, early, style).last() == path::components_from(
            s,
            late,
            style,
        ).last(),
{
    let front = s.take(late - 1);
    let rest = s.skip(late);
    assert(s =~= front + seq![s[late - 1]] + rest);
    path::lemma_components_before(front, s[late - 1], rest, early, style);
}

/// A verbatim path with `UNC` in it ends with the same component as it does with other letters
/// there, if it has a component after the share.
proof fn lemma_keyword_before_components(a: Seq<char>, b: Seq<char>)
    requires
        alike(a, b),
        prefix::opens_verbatim(a),
        prefix::goes_on_unc(a),
        !prefix::goes_on_unc(b),
        path::components(a, System::Windows).len() > 0,
    ensures
        path::components(b, System::Windows).len() > 0,
        path::components(a, System::Windows).last() == path::components(
            b,
            System::Windows,
        ).last(),
{
    let system = System::Windows;
    let style = Style::Backslash;
    lemma_alike(a, b);
    lemma_same_opening(a, b);
    path::lemma_parts_in_order(a, system);
    path::lemma_parts_in_order(b, system);
    let names = a.skip(8);
    let server_end = prefix::first_separator(names, style) as int;
    prefix::lemma_first_separator_is_first(names, style);
    let after = prefix::after_first_name(names, style);
    prefix::lemma_first_separator_is_first(after, style);
    let late = path::body_start(a, system);
    let mark = path::prefix_end(a, system);
    assert(mark >= 8 + server_end);
    assert(mark < a.len());
    assert(prefix::separates(a[mark], style)) by {
        let share_end = prefix::first_separator(after, style) as int;
        if prefix::first_name(after, style).len() > 0 {
            assert(after[share_end] == a[mark]);
        } else {
            assert(names[server_end] == a[mark]);
        }
    }
    assert(late == mark + 1);
    assert(a[mark] == b[mark]);
    assert(a[4] == b[4] || (prefix::is_letter(a[4]) && prefix::is_letter(b[4])));
    assert(a[5] == b[5] || (prefix::is_letter(a[5]) && prefix::is_letter(b[5])));
    assert(a[7] == b[7]);
    let tail = b.skip(4);
    assert(tail[0] == b[4] && tail[1] == b[5]);
    assert(prefix::drive_of(tail) is None);
    prefix::lemma_first_separator_is_first(tail, style);
    let name_end = prefix::first_separator(tail, style) as int;
    assert(path::prefix_end(b, system) == 4 + name_end);
    assert(4 + name_end <= 8 + server_end) by {
        if 4 + name_end > 8 + server_end {
            assert(!prefix::separates(tail[4 + server_end], style));
            assert(names[server_end] == a[8 + server_end]);
            assert(tail[4 + server_end] == b[8 + server_end]);
            assert(a[8 + server_end] == b[8 + server_end]);
        }
    }
    let early = path::body_start(b, system);
    assert(early <= late);
    lemma_same_components_from(a, b, late, style);
    if early < late {
        lemma_same_last_component(b, early, late, style);
    }
}

/// Whether the case of letters means nothing for the last components of two paths that are alike:
/// on Windows, `UNC` after `\\?\` is a keyword only in upper case, and what it makes a server or a
/// share is no component.
pub open spec fn same_ending(a: Seq<char>, b: Seq<char>, system: System) -> bool {
    ||| same_keywords(a, b, system)
    ||| path::components(a, system).len() > 0 && path::components(b, system).len() > 0
}

/// The file names and extensions of two paths that are the same but for the case of ASCII letters
/// are so too.
pub proof fn law_case_of_names(a: Seq<char>, b: Seq<char>, system: System)
    requires
        alike(a, b),
        same_ending(a, b, system),
    ensures
        both_alike(path::name_of(a, system), path::name_of(b, system)),
        both_alike(path::extension_of(a, system), path::extension_of(b, system)),
{
    let these = path::components(a, system);
    let those = path::components(b, system);
    lemma_alike(a, b);
    path::lemma_parts_in_order(a, system);
    if same_keywords(a, b, system) {
        lemma_same_body_start(a, b, system);
        lemma_same_components_from(
            a,
            b,
            path::body_start(a, system),
            path::style_of(a, system),
        );
    } else {
        lemma_same_opening(a, b);
        if prefix::goes_on_unc(a) {
            lemma_keyword_before_components(a, b);
        } else {
            lemma_keyword_before_components(b, a);
        }
    }
    assert(these.len() == 0 <==> those.len() == 0);
    if these.len() > 0 {
        let span = these.last();
        assert(span == those.last());
        assert(these[these.len() - 1] == span);
        lemma_alike_pieces(a, b, span.0, span.1);
        let x = a.subrange(span.0, span.1);
        let y = b.subrange(span.0, span.1);
        lemma_alike_dots(x, y);
        lemma_same_last_dot(x, y);
        lemma_alike(x, y);
        let dot = path::last_index(x, '.');
        if 0 < dot {
            lemma_alike_tails(x, y, dot + 1);
        }
    }
}

proof fn lemma_same_last_dot(a: Seq<char>, b: Seq<char>)
    requires
        alike(a, b),
    ensures
        path::last_index(a, '.') == path::last_index(b, '.'),
        path::last_index(a, '.') < a.len(),
    decreases a.len(),
{
    lemma_alike(a, b);
    if a.len() > 0 {
        let n = a.len() - 1;
        assert(a[n] == b[n] || (prefix::is_letter(a[n]) && prefix::is_letter(b[n])));
        lemma_alike_pieces(a, b, 0, n);
        assert(a.subrange(0, n) =~= a.drop_last());
        assert(b.subrange(0, n) =~= b.drop_last());
        lemma_same_last_dot(a.drop_last(), b.drop_last());
    }
}

} // verus!
