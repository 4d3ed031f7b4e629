//! Text primitives: what the rest of the crate says about strings, it says in the
//! vocabulary of this module, over sequences of characters.
use vstd::prelude::*;
use vstd::utf8::*;

verus! {

/// `String::push` appends one character to the end of the string.
pub assume_specification[ String::push ](s: &mut String, c: char)
    ensures
        final(s)@ == old(s)@.push(c),
;

/// The characters with the Unicode property `White_Space`.
pub open spec fn is_white(c: char) -> bool {
    ||| '\u{9}' <= c <= '\u{d}'
    ||| c == ' '
    ||| c == '\u{85}'
    ||| c == '\u{a0}'
    ||| c == '\u{1680}'
    ||| '\u{2000}' <= c <= '\u{200a}'
    ||| c == '\u{2028}'
    ||| c == '\u{2029}'
    ||| c == '\u{202f}'
    ||| c == '\u{205f}'
    ||| c == '\u{3000}'
}

/// `s` without the whitespace at its end.
pub open spec fn trimmed_end(s: Seq<char>) -> Seq<char>
    decreases s.len(),
{
    if s.len() > 0 && is_white(s.last()) {
        trimmed_end(s.drop_last())
    } else {
        s
    }
}

/// `s` without the whitespace at its start.
pub open spec fn trimmed_start(s: Seq<char>) -> Seq<char>
    decreases s.len(),
{
    if s.len() > 0 && is_white(s[0]) {
        trimmed_start(s.drop_first())
    } else {
        s
    }
}

/// `s` without the whitespace at either end.
pub open spec fn trimmed(s: Seq<char>) -> Seq<char> {
    trimmed_end(trimmed_start(s))
}

/// `s` without the run of `c` at its end.
pub open spec fn without_trailing(s: Seq<char>, c: char) -> Seq<char>
    decreases s.len(),
{
    if s.len() > 0 && s.last() == c {
        without_trailing(s.drop_last(), c)
    } else {
        s
    }
}

/// Whether every character of `s` is whitespace.
pub open spec fn is_blank(s: Seq<char>) -> bool {
    forall|i: int| 0 <= i < s.len() ==> is_white(#[trigger] s[i])
}

/// The position of the first `c` in `s`, or the length of `s` where there is none.
pub open spec fn first_index(s: Seq<char>, c: char) -> nat
    decreases s.len(),
{
    if s.len() == 0 || s[0] == c {
        0
    } else {
        1 + first_index(s.drop_first(), c)
    }
}

/// A line as it stands before its line feed: a carriage return there belongs to the
/// line ending.
pub open spec fn without_carriage_return(line: Seq<char>) -> Seq<char> {
    if line.len() > 0 && line.last() == '\r' {
        line.drop_last()
    } else {
        line
    }
}

/// The lines of `s`: each ends at a line feed, or at the end of `s` for the last one if
/// it is not empty.
pub open spec fn lines_of(s: Seq<char>) -> Seq<Seq<char>>
    decreases s.len(),
{
    let n = first_index(s, '\n') as int;
    if s.len() == 0 {
        seq![]
    } else if n < s.len() {
        seq![without_carriage_return(s.take(n))] + lines_of(s.skip(n + 1))
    } else {
        seq![s]
    }
}

/// Whether `needle` stands in `s` from position `i` on.
pub open spec fn occurs_at(s: Seq<char>, needle: Seq<char>, i: int) -> bool {
    0 <= i && i + needle.len() <= s.len() && s.subrange(i, i + needle.len()) == needle
}

/// Whether `needle` stands somewhere in `s`.
pub open spec fn has_text(s: Seq<char>, needle: Seq<char>) -> bool {
    exists|i: int| occurs_at(s, needle, i)
}

/// The lower-case letter of an upper-case ASCII letter; any other character as it is.
pub open spec fn ascii_lower_char(c: char) -> char {
    if 'A' <= c <= 'Z' {
        (c as u32 + 32) as char
    } else {
        c
    }
}

/// `s` with its ASCII letters in lower case.
pub open spec fn ascii_lower(s: Seq<char>) -> Seq<char> {
    s.map_values(|c: char| ascii_lower_char(c))
}

/// `s` with every `from` turned into `to`.
pub open spec fn with_replaced(s: Seq<char>, from: char, to: char) -> Seq<char> {
    s.map_values(|c: char| if c == from { to } else { c })
}

/// `n` in decimal digits.
pub open spec fn decimal(n: nat) -> Seq<char>
    decreases n,
{
    if n < 10 {
        seq![('0' as nat + n) as char]
    } else {
        decimal(n / 10).push(('0' as nat + n % 10) as char)
    }
}

/// The parts one after the other, with `sep` between any two neighbours.
pub open spec fn joined(parts: Seq<Seq<char>>, sep: Seq<char>) -> Seq<char>
    decreases parts.len(),
{
    if parts.len() == 0 {
        seq![]
    } else if parts.len() == 1 {
        parts[0]
    } else {
        joined(parts.drop_last(), sep) + sep + parts.last()
    }
}

/// The texts that a sequence of string slices holds.
pub open spec fn views(parts: Seq<&str>) -> Seq<Seq<char>> {
    parts.map_values(|p: &str| p@)
}

/// The texts that a sequence of strings holds.
pub open spec fn texts(list: Seq<String>) -> Seq<Seq<char>> {
    list.map_values(|s: String| s@)
}

/// The first `n` characters of `s`, or all of `s` if it is shorter.
pub open spec fn first_chars(s: Seq<char>, n: int) -> Seq<char> {
    if s.len() <= n {
        s
    } else {
        s.take(n)
    }
}

/// `s`, or its first `max` characters and then `note` if it is longer than that.
pub open spec fn capped(s: Seq<char>, max: int, note: Seq<char>) -> Seq<char> {
    if s.len() > max {
        s.take(max) + note
    } else {
        s
    }
}

proof fn lemma_encode_push(a: Seq<char>, c: char)
    ensures
        encode_utf8(a.push(c)) == encode_utf8(a) + encode_scalar(c as u32),
    decreases a.len(),
{
    if a.len() == 0 {
        assert(a.push(c).drop_first() =~= Seq::<char>::empty());
        assert(encode_utf8(a.push(c).drop_first()) =~= Seq::<u8>::empty());
    } else {
        assert(a.push(c).drop_first() =~= a.drop_first().push(c));
        lemma_encode_push(a.drop_first(), c);
    }
}

proof fn lemma_encode_add(a: Seq<char>, b: Seq<char>)
    ensures
        encode_utf8(a + b) == encode_utf8(a) + encode_utf8(b),
    decreases a.len(),
{
    if a.len() == 0 {
        assert(a + b =~= b);
    } else {
        assert((a + b).drop_first() =~= a.drop_first() + b);
        lemma_encode_add(a.drop_first(), b);
    }
}

proof fn lemma_boundary(a: Seq<char>, b: Seq<char>)
    ensures
        is_char_boundary(encode_utf8(a + b), encode_utf8(a).len() as int),
    decreases a.len(),
{
    encode_utf8_valid_utf8(a + b);
    if a.len() > 0 {
        lemma_encode_add(a, b);
        encode_utf8_first_scalar(a + b);
        assert((a + b).drop_first() =~= a.drop_first() + b);
        assert(pop_first_scalar(encode_utf8(a + b)) =~= encode_utf8(a.drop_first() + b));
        lemma_boundary(a.drop_first(), b);
    }
}

/// How many bytes a character takes in UTF-8.
fn width(c: char) -> (n: usize)
    ensures
        n == encode_scalar(c as u32).len(),
{
    let u = c as u32;
    if u <= 0x7f {
        1
    } else if u <= 0x7ff {
        2
    } else if u <= 0xffff {
        3
    } else {
        4
    }
}

/// The characters of `s`.
pub fn chars_of(s: &str) -> (chars: Vec<char>)
    ensures
        chars@ == s@,
{
    let mut chars: Vec<char> = Vec::new();
    for c in it: s.chars()
        invariant
            it.seq() == s@,
            chars@ == s@.take(it.index()),
    {
        chars.push(c);
    }
    chars
}

/// Cuts `s`, which holds the characters from position `from` on, at position `to`.
fn cut<'a>(s: &'a str, chars: &Vec<char>, from: usize, to: usize) -> (parts: (&'a str, &'a str))
    requires
        from <= to <= chars@.len(),
        s@ == chars@.skip(from as int),
    ensures
        parts.0@ == chars@.subrange(from as int, to as int),
        parts.1@ == chars@.skip(to as int),
{
    let total: usize = s.as_bytes().len();
    let mut offset: usize = 0;
    let ghost head = chars@.subrange(from as int, to as int);
    let ghost tail = chars@.skip(to as int);
    proof {
        assert(s@ =~= head + tail);
    }
    let mut k: usize = from;
    assert(chars@.subrange(from as int, from as int) =~= Seq::<char>::empty());
    while k < to
        invariant
            from <= k <= to <= chars@.len(),
            s@ == chars@.skip(from as int),
            offset == encode_utf8(chars@.subrange(from as int, k as int)).len(),
            total == encode_utf8(s@).len(),
        decreases to - k,
    {
        let c = chars[k];
        proof {
            let taken = chars@.subrange(from as int, k as int);
            let longer = chars@.subrange(from as int, k + 1);
            lemma_encode_push(taken, c);
            assert(longer =~= taken.push(c));
            assert(s@ =~= longer + chars@.skip(k + 1));
            lemma_encode_add(longer, chars@.skip(k + 1));
        }
        offset = offset + width(c);
        k = k + 1;
    }
    proof {
        lemma_boundary(head, tail);
        lemma_encode_add(head, tail);
    }
    let parts = s.split_at(offset);
    proof {
        assert(encode_utf8(parts.0@) =~= encode_utf8(head));
        assert(encode_utf8(parts.1@) =~= encode_utf8(tail));
        encode_utf8_decode_utf8(head);
        encode_utf8_decode_utf8(tail);
        encode_utf8_decode_utf8(parts.0@);
        encode_utf8_decode_utf8(parts.1@);
    }
    parts
}

/// The piece of `s` between two positions.
pub(crate) fn piece<'a>(s: &'a str, chars: &Vec<char>, from: usize, to: usize) -> (part: &'a str)
    requires
        from <= to <= chars@.len(),
        s@ == chars@,
    ensures
        part@ == chars@.subrange(from as int, to as int),
{
    assert(chars@.skip(0) =~= chars@);
    let rest = cut(s, chars, 0, from).1;
    cut(rest, chars, from, to).0
}

/// Whether a character is whitespace.
pub fn is_whitespace(c: char) -> (white: bool)
    ensures
        white == is_white(c),
{
    ('\u{9}' <= c && c <= '\u{d}') || c == ' ' || c == '\u{85}' || c == '\u{a0}' || c
        == '\u{1680}' || ('\u{2000}' <= c && c <= '\u{200a}') || c == '\u{2028}' || c
        == '\u{2029}' || c == '\u{202f}' || c == '\u{205f}' || c == '\u{3000}'
}

/// Where `chars[from..]` ends when the whitespace at its end is left out.
fn end_without_whitespace(chars: &Vec<char>, from: usize) -> (end: usize)
    requires
        from <= chars@.len(),
    ensures
        from <= end <= chars@.len(),
        chars@.subrange(from as int, end as int) == trimmed_end(chars@.skip(from as int)),
{
    let mut end: usize = chars.len();
    assert(chars@.subrange(from as int, end as int) =~= chars@.skip(from as int));
    while end > from && is_whitespace(chars[end - 1])
        invariant
            from <= end <= chars@.len(),
            trimmed_end(chars@.subrange(from as int, end as int)) == trimmed_end(
                chars@.skip(from as int),
            ),
        decreases end,
    {
        assert(chars@.subrange(from as int, end as int).drop_last() =~= chars@.subrange(
            from as int,
            end - 1,
        ));
        end = end - 1;
    }
    end
}

/// `s` without the whitespace at its end.
pub fn trim_end<'a>(s: &'a str) -> (part: &'a str)
    ensures
        part@ == trimmed_end(s@),
{
    let chars = chars_of(s);
    let end = end_without_whitespace(&chars, 0);
    assert(chars@.skip(0) =~= chars@);
    piece(s, &chars, 0, end)
}

/// `s` without the whitespace at either end.
pub fn trim<'a>(s: &'a str) -> (part: &'a str)
    ensures
        part@ == trimmed(s@),
{
    let chars = chars_of(s);
    let mut start: usize = 0;
    assert(chars@.skip(0) =~= chars@);
    while start < chars.len() && is_whitespace(chars[start])
        invariant
            start <= chars@.len(),
            trimmed_start(chars@.skip(start as int)) == trimmed_start(chars@),
        decreases chars@.len() - start,
    {
        assert(chars@.skip(start as int).drop_first() =~= chars@.skip(start + 1));
        start = start + 1;
    }
    let end = end_without_whitespace(&chars, start);
    piece(s, &chars, start, end)
}

/// `s` without the run of `c` at its end.
pub fn trim_trailing<'a>(s: &'a str, c: char) -> (part: &'a str)
    ensures
        part@ == without_trailing(s@, c),
{
    let chars = chars_of(s);
    let mut end: usize = chars.len();
    assert(chars@.subrange(0, end as int) =~= chars@);
    while end > 0 && chars[end - 1] == c
        invariant
            end <= chars@.len(),
            without_trailing(chars@.subrange(0, end as int), c) == without_trailing(chars@, c),
        decreases end,
    {
        assert(chars@.subrange(0, end as int).drop_last() =~= chars@.subrange(0, end - 1));
        end = end - 1;
    }
    piece(s, &chars, 0, end)
}

/// A position with no `c` before it is the first one if it holds `c` or ends the text.
pub proof fn lemma_first_index(s: Seq<char>, c: char, n: int)
    requires
        0 <= n <= s.len(),
        forall|i: int| 0 <= i < n ==> s[i] != c,
        n < s.len() ==> s[n] == c,
    ensures
        first_index(s, c) == n,
    decreases n,
{
    if n > 0 {
        assert(s[0] != c);
        assert forall|i: int| 0 <= i < n - 1 implies s.drop_first()[i] != c by {
            assert(s.drop_first()[i] == s[i + 1]);
        }
        lemma_first_index(s.drop_first(), c, n - 1);
    }
}

/// `first_index` stays within the text, at a `c` if it is not at the end, and no `c` stands
/// before it.
pub proof fn lemma_first_index_is_first(s: Seq<char>, c: char)
    ensures
        first_index(s, c) <= s.len(),
        first_index(s, c) < s.len() ==> s[first_index(s, c) as int] == c,
        forall|i: int| 0 <= i < first_index(s, c) ==> s[i] != c,
    decreases s.len(),
{
    if s.len() > 0 && s[0] != c {
        let rest = s.drop_first();
        lemma_first_index_is_first(rest, c);
        assert forall|i: int| 0 <= i < first_index(s, c) implies s[i] != c by {
            if i > 0 {
                assert(s[i] == rest[i - 1]);
            }
        }
    }
}

/// No line holds a line feed.
pub proof fn lemma_lines_hold_no_line_feed(s: Seq<char>)
    ensures
        forall|i: int, j: int|
            0 <= i < lines_of(s).len() && 0 <= j < lines_of(s)[i].len() ==> #[trigger] lines_of(
                s,
            )[i][j] != '\n',
    decreases s.len(),
{
    let n = first_index(s, '\n') as int;
    lemma_first_index_is_first(s, '\n');
    if s.len() > 0 {
        if n < s.len() {
            let line = without_carriage_return(s.take(n));
            let rest = lines_of(s.skip(n + 1));
            lemma_lines_hold_no_line_feed(s.skip(n + 1));
            assert(lines_of(s) == seq![line] + rest);
            assert forall|i: int, j: int|
                0 <= i < lines_of(s).len() && 0 <= j < lines_of(s)[i].len() implies #[trigger] lines_of(
                s,
            )[i][j] != '\n' by {
                if i > 0 {
                    assert(lines_of(s)[i] == rest[i - 1]);
                    assert(rest[i - 1][j] != '\n');
                } else {
                    assert(lines_of(s)[i][j] == s[j]);
                }
            }
        } else {
            assert(lines_of(s) == seq![s]);
        }
    }
}

/// What `without_trailing` leaves is where the text starts; the rest is a run of `c`.
pub proof fn lemma_without_trailing(s: Seq<char>, c: char)
    ensures
        without_trailing(s, c).len() <= s.len(),
        without_trailing(s, c) == s.take(without_trailing(s, c).len() as int),
        forall|i: int| without_trailing(s, c).len() <= i < s.len() ==> s[i] == c,
        without_trailing(s, c).len() > 0 ==> without_trailing(s, c).last() != c,
    decreases s.len(),
{
    if s.len() > 0 && s.last() == c {
        lemma_without_trailing(s.drop_last(), c);
        let n = without_trailing(s, c).len() as int;
        assert(s.drop_last().take(n) =~= s.take(n));
        assert forall|i: int| n <= i < s.len() implies s[i] == c by {
            if i < s.len() - 1 {
                assert(s.drop_last()[i] == c);
            }
        }
    } else {
        assert(s.take(s.len() as int) =~= s);
    }
}

/// What `trimmed_end` leaves is where the text starts, up to its last character that is not
/// whitespace.
pub proof fn lemma_trimmed_end(s: Seq<char>)
    ensures
        trimmed_end(s).len() <= s.len(),
        trimmed_end(s) == s.take(trimmed_end(s).len() as int),
        forall|i: int| trimmed_end(s).len() <= i < s.len() ==> is_white(s[i]),
        trimmed_end(s).len() > 0 ==> !is_white(trimmed_end(s).last()),
        trimmed_end(trimmed_end(s)) == trimmed_end(s),
    decreases s.len(),
{
    if s.len() > 0 && is_white(s.last()) {
        lemma_trimmed_end(s.drop_last());
        let n = trimmed_end(s).len() as int;
        assert(s.drop_last().take(n) =~= s.take(n));
        assert forall|i: int| n <= i < s.len() implies is_white(s[i]) by {
            if i < s.len() - 1 {
                assert(is_white(s.drop_last()[i]));
            }
        }
    } else {
        assert(s.take(s.len() as int) =~= s);
    }
}

/// Whitespace added at the end of a text is trimmed away again.
pub proof fn lemma_trimmed_end_of_padded(s: Seq<char>, pad: Seq<char>)
    requires
        is_blank(pad),
    ensures
        trimmed_end(s + pad) == trimmed_end(s),
    decreases pad.len(),
{
    if pad.len() == 0 {
        assert(s + pad =~= s);
    } else {
        assert(is_white(pad[pad.len() - 1]));
        assert((s + pad).drop_last() =~= s + pad.drop_last());
        lemma_trimmed_end_of_padded(s, pad.drop_last());
    }
}

/// A text cut after a line feed has the lines of either part.
pub proof fn lemma_lines_of_parts(a: Seq<char>, b: Seq<char>)
    ensures
        lines_of(a + seq!['\n'] + b) == lines_of(a + seq!['\n']) + lines_of(b),
    decreases a.len(),
{
    let feed = seq!['\n'];
    let whole = a + feed + b;
    let head = a + feed;
    let n = first_index(a, '\n') as int;
    lemma_first_index_is_first(a, '\n');
    lemma_first_index(whole, '\n', n);
    lemma_first_index(head, '\n', n);
    assert(whole.take(n) =~= a.take(n));
    assert(head.take(n) =~= a.take(n));
    let line = without_carriage_return(a.take(n));
    if n < a.len() {
        let rest = a.skip(n + 1);
        assert(whole.skip(n + 1) =~= rest + feed + b);
        assert(head.skip(n + 1) =~= rest + feed);
        lemma_lines_of_parts(rest, b);
        assert(seq![line] + (lines_of(rest + feed) + lines_of(b)) =~= (seq![line] + lines_of(
            rest + feed,
        )) + lines_of(b));
    } else {
        assert(whole.skip(n + 1) =~= b);
        assert(head.skip(n + 1) =~= seq![]);
        reveal_with_fuel(lines_of, 2);
        assert(lines_of(head) =~= seq![line]);
    }
}

/// A line feed at the end of a text that has none there, nor a carriage return, adds no line.
pub proof fn lemma_lines_of_terminated(s: Seq<char>)
    requires
        s.len() > 0,
        s.last() != '\n',
        s.last() != '\r',
    ensures
        lines_of(s.push('\n')) == lines_of(s),
    decreases s.len(),
{
    let n = first_index(s, '\n') as int;
    let longer = s.push('\n');
    lemma_first_index_is_first(s, '\n');
    lemma_first_index(longer, '\n', n);
    assert(longer.take(n) =~= s.take(n));
    if n < s.len() {
        assert(longer.skip(n + 1) =~= s.skip(n + 1).push('\n'));
        lemma_lines_of_terminated(s.skip(n + 1));
    } else {
        assert(s.take(n) =~= s);
        assert(longer.skip(n + 1) =~= seq![]);
        reveal_with_fuel(lines_of, 2);
        assert(lines_of(longer) =~= seq![s]);
    }
}

/// A text that stands in `s` stands in any text around `s`.
pub proof fn lemma_has_text_within(before: Seq<char>, s: Seq<char>, after: Seq<char>, needle: Seq<char>)
    requires
        has_text(s, needle),
    ensures
        has_text(before + s + after, needle),
{
    let i = choose|i: int| occurs_at(s, needle, i);
    let whole = before + s + after;
    let at = before.len() + i;
    assert(whole.subrange(at, at + needle.len()) =~= s.subrange(i, i + needle.len()));
    assert(occurs_at(whole, needle, at));
}

/// The lines of `s`, without their line endings.
pub fn split_lines<'a>(s: &'a str) -> (lines: Vec<&'a str>)
    ensures
        views(lines@) == lines_of(s@),
{
    let chars = chars_of(s);
    let mut lines: Vec<&'a str> = Vec::new();
    let mut rest = s;
    let mut start: usize = 0;
    assert(chars@.skip(0) =~= chars@);
    assert(views(lines@) + lines_of(s@) =~= lines_of(s@));
    while start < chars.len()
        invariant
            start <= chars@.len(),
            chars@ == s@,
            rest@ == chars@.skip(start as int),
            views(lines@) + lines_of(rest@) == lines_of(s@),
        decreases chars@.len() - start,
    {
        let mut n: usize = start;
        while n < chars.len() && chars[n] != '\n'
            invariant
                start <= n <= chars@.len(),
                forall|i: int| start <= i < n ==> chars@[i] != '\n',
            decreases chars@.len() - n,
        {
            n = n + 1;
        }
        let ghost before = rest@;
        let ghost done = views(lines@);
        proof {
            assert forall|i: int| 0 <= i < n - start implies before[i] != '\n' by {
                assert(before[i] == chars@[start + i]);
            }
            lemma_first_index(before, '\n', n - start);
        }
        if n < chars.len() {
            let end: usize = if n > start && chars[n - 1] == '\r' { n - 1 } else { n };
            let line = cut(rest, &chars, start, end).0;
            lines.push(line);
            rest = cut(rest, &chars, start, n + 1).1;
            start = n + 1;
            proof {
                let taken = before.take(first_index(before, '\n') as int);
                assert(line@ =~= without_carriage_return(taken));
                assert(before.skip(first_index(before, '\n') as int + 1) =~= rest@);
                assert(views(lines@) =~= done.push(line@));
                assert(views(lines@) + lines_of(rest@) =~= done + lines_of(before));
            }
        } else {
            lines.push(rest);
            rest = cut(rest, &chars, start, n).1;
            start = n;
            proof {
                assert(views(lines@) =~= done.push(before));
                assert(lines_of(rest@) =~= seq![]);
                assert(views(lines@) + lines_of(rest@) =~= done + lines_of(before));
            }
        }
    }
    proof {
        assert(lines_of(rest@) =~= seq![]);
        assert(views(lines@) =~= views(lines@) + lines_of(rest@));
    }
    lines
}

/// Whether `needle` stands in `chars` from position `at` on.
fn occurs(chars: &Vec<char>, needle: &Vec<char>, at: usize) -> (found: bool)
    ensures
        found == occurs_at(chars@, needle@, at as int),
{
    if at > chars.len() || needle.len() > chars.len() - at {
        return false;
    }
    let mut i: usize = 0;
    while i < needle.len()
        invariant
            i <= needle@.len(),
            at + needle@.len() <= chars.len(),
            forall|j: int| 0 <= j < i ==> chars@[at + j] == needle@[j],
        decreases needle@.len() - i,
    {
        if chars[at + i] != needle[i] {
            assert(chars@.subrange(at as int, at + needle@.len())[i as int] != needle@[i as int]);
            return false;
        }
        i = i + 1;
    }
    assert(chars@.subrange(at as int, at + needle@.len()) =~= needle@);
    true
}

/// Whether two texts are the same.
pub fn same_text(a: &str, b: &str) -> (same: bool)
    ensures
        same == (a@ == b@),
{
    let left = chars_of(a);
    let right = chars_of(b);
    assert(left@.subrange(0, left@.len() as int) =~= left@);
    left.len() == right.len() && occurs(&left, &right, 0)
}

/// Whether `s` starts with `prefix`.
pub fn starts_with(s: &str, prefix: &str) -> (yes: bool)
    ensures
        yes == prefix@.is_prefix_of(s@),
{
    let chars = chars_of(s);
    let needle = chars_of(prefix);
    occurs(&chars, &needle, 0)
}

/// Whether `s` ends with `suffix`.
pub fn ends_with(s: &str, suffix: &str) -> (yes: bool)
    ensures
        yes == suffix@.is_suffix_of(s@),
{
    let chars = chars_of(s);
    let needle = chars_of(suffix);
    if needle.len() > chars.len() {
        return false;
    }
    occurs(&chars, &needle, chars.len() - needle.len())
}

/// Whether `needle` stands somewhere in `s`.
pub fn contains_text(s: &str, needle: &str) -> (yes: bool)
    ensures
        yes == has_text(s@, needle@),
{
    let chars = chars_of(s);
    let wanted = chars_of(needle);
    let mut at: usize = 0;
    while at < chars.len()
        invariant
            at <= chars@.len(),
            chars@ == s@,
            wanted@ == needle@,
            forall|i: int| 0 <= i < at ==> !occurs_at(s@, needle@, i),
        decreases chars@.len() - at,
    {
        if occurs(&chars, &wanted, at) {
            return true;
        }
        at = at + 1;
    }
    let found = occurs(&chars, &wanted, at);
    proof {
        assert forall|i: int| !found implies !occurs_at(s@, needle@, i) by {}
    }
    found
}

/// `s` without `suffix` at its end, if it has it there.
pub fn strip_end<'a>(s: &'a str, suffix: &str) -> (part: Option<&'a str>)
    ensures
        part is Some <==> suffix@.is_suffix_of(s@),
        part matches Some(rest) ==> rest@ == s@.take(s@.len() - suffix@.len()),
{
    if !ends_with(s, suffix) {
        return None;
    }
    let chars = chars_of(s);
    let length = chars_of(suffix).len();
    let part = piece(s, &chars, 0, chars.len() - length);
    Some(part)
}

/// The first `max_chars` characters of a text, or all of it if it is shorter.
pub fn truncate_chars(input: &str, max_chars: usize) -> (text: String)
    ensures
        text@ == first_chars(input@, max_chars as int),
{
    let chars = chars_of(input);
    let end: usize = if chars.len() < max_chars { chars.len() } else { max_chars };
    let text = String::from_str(piece(input, &chars, 0, end));
    assert(text@ =~= first_chars(input@, max_chars as int));
    text
}

/// `s` with its ASCII letters in lower case.
pub fn to_ascii_lower(s: &str) -> (text: String)
    ensures
        text@ == ascii_lower(s@),
{
    let mut text = String::new();
    for c in it: s.chars()
        invariant
            it.seq() == s@,
            text@ == ascii_lower(s@.take(it.index())),
    {
        let lower = if 'A' <= c && c <= 'Z' { (c as u8 + 32) as char } else { c };
        text.push(lower);
        assert(text@ =~= ascii_lower(s@.take(it.index() + 1)));
    }
    assert(s@.take(s@.len() as int) =~= s@);
    text
}

/// `s` with every `from` turned into `to`.
pub fn replace_char(s: &str, from: char, to: char) -> (text: String)
    ensures
        text@ == with_replaced(s@, from, to),
{
    let mut text = String::new();
    for c in it: s.chars()
        invariant
            it.seq() == s@,
            text@ == with_replaced(s@.take(it.index()), from, to),
    {
        text.push(if c == from { to } else { c });
        assert(text@ =~= with_replaced(s@.take(it.index() + 1), from, to));
    }
    assert(s@.take(s@.len() as int) =~= s@);
    text
}

/// Appends `n` in decimal digits.
pub fn append_decimal(text: &mut String, n: usize)
    ensures
        final(text)@ == old(text)@ + decimal(n as nat),
    decreases n,
{
    if n >= 10 {
        append_decimal(text, n / 10);
    }
    let digit = (48 + (n % 10) as u8) as char;
    text.push(digit);
}

/// The parts one after the other, with `sep` between any two neighbours.
pub fn join_text(parts: &[&str], sep: &str) -> (text: String)
    ensures
        text@ == joined(views(parts@), sep@),
{
    let mut text = String::new();
    let mut i: usize = 0;
    while i < parts.len()
        invariant
            i <= parts@.len(),
            text@ == joined(views(parts@).take(i as int), sep@),
        decreases parts@.len() - i,
    {
        if i > 0 {
            text.append(sep);
        }
        text.append(parts[i]);
        proof {
            let longer = views(parts@).take(i + 1);
            assert(longer.drop_last() =~= views(parts@).take(i as int));
            assert(longer.last() == parts@[i as int]@);
            assert(text@ =~= joined(longer, sep@));
        }
        i = i + 1;
    }
    assert(views(parts@).take(parts@.len() as int) =~= views(parts@));
    text
}

/// `text`, or its first `max_chars` characters and then `note` if it is longer than that.
pub fn cap_chars(text: String, max_chars: usize, note: &str) -> (short: String)
    ensures
        short@ == capped(text@, max_chars as int, note@),
{
    if text.as_str().unicode_len() > max_chars {
        let mut short = truncate_chars(text.as_str(), max_chars);
        short.append(note);
        short
    } else {
        text
    }
}

/// A text between whitespace is what trimming leaves, if it neither starts nor ends with
/// whitespace itself.
pub proof fn law_trimming(before: Seq<char>, core: Seq<char>, after: Seq<char>)
    requires
        is_blank(before),
        is_blank(after),
        core.len() > 0 ==> !is_white(core[0]) && !is_white(core.last()),
    ensures
        trimmed(before + core + after) == core,
    decreases before.len() + 2 * after.len(),
{
    let whole = before + core + after;
    if before.len() > 0 {
        let rest = before.drop_first();
        assert(whole[0] == before[0]);
        assert(whole.drop_first() =~= rest + core + after);
        assert forall|i: int| 0 <= i < rest.len() implies is_white(#[trigger] rest[i]) by {
            assert(rest[i] == before[i + 1]);
        }
        law_trimming(rest, core, after);
    } else if core.len() > 0 {
        assert(whole =~= core + after);
        assert(trimmed_start(whole) == whole);
        lemma_trimmed_end_of_padded(core, after);
    } else if after.len() > 0 {
        assert(whole =~= after + core + Seq::<char>::empty());
        law_trimming(after, core, Seq::empty());
    } else {
        assert(whole =~= core);
    }
}

/// Nothing is left of a text by trimming exactly if it is blank.
pub proof fn law_trimming_a_blank_text(s: Seq<char>)
    ensures
        trimmed(s).len() == 0 <==> is_blank(s),
        trimmed_end(s).len() == 0 <==> is_blank(s),
    decreases s.len(),
{
    lemma_trimmed_end(s);
    if is_blank(s) {
        law_trimming(s, Seq::empty(), Seq::empty());
        assert(s + Seq::<char>::empty() + Seq::<char>::empty() =~= s);
        if trimmed_end(s).len() > 0 {
            assert(trimmed_end(s).last() == s[trimmed_end(s).len() - 1]);
        }
    } else if is_white(s[0]) {
        let rest = s.drop_first();
        let i = choose|i: int| 0 <= i < s.len() && !is_white(#[trigger] s[i]);
        assert(rest[i - 1] == s[i]);
        assert(!is_blank(rest));
        law_trimming_a_blank_text(rest);
    }
}

/// The lines of a text are the line before its first line feed, without the carriage return at its
/// end, and the lines of the rest; a text without line feed is one line, unless it is empty.
pub proof fn law_lines(line: Seq<char>, rest: Seq<char>)
    requires
        forall|i: int| 0 <= i < line.len() ==> line[i] != '\n',
    ensures
        lines_of(line + seq!['\n'] + rest) == seq![
            if line.len() > 0 && line[line.len() - 1] == '\r' {
                line.take(line.len() - 1)
            } else {
                line
            },
        ] + lines_of(rest),
        line.len() > 0 ==> lines_of(line) == seq![line],
        line.len() == 0 ==> lines_of(line) == Seq::<Seq<char>>::empty(),
{
    let whole = line + seq!['\n'] + rest;
    lemma_first_index(whole, '\n', line.len() as int);
    assert(whole.take(line.len() as int) =~= line);
    assert(whole.skip(line.len() as int + 1) =~= rest);
    lemma_first_index(line, '\n', line.len() as int);
    if line.len() > 0 {
        assert(line.drop_last() =~= line.take(line.len() - 1));
    }
}

/// A text stands in another exactly if the other is that text with something before and after it.
pub proof fn law_text_within(s: Seq<char>, needle: Seq<char>)
    ensures
        has_text(s, needle) <==> exists|a: Seq<char>, b: Seq<char>| s == #[trigger] (a + needle + b),
{
    if has_text(s, needle) {
        let i = choose|i: int| occurs_at(s, needle, i);
        let a = s.take(i);
        let b = s.skip(i + needle.len());
        assert(s =~= a + needle + b);
    }
    if exists|a: Seq<char>, b: Seq<char>| s == #[trigger] (a + needle + b) {
        let (a, b) = choose|a: Seq<char>, b: Seq<char>| s == #[trigger] (a + needle + b);
        assert(s.subrange(a.len() as int, (a.len() + needle.len()) as int) =~= needle);
        assert(occurs_at(s, needle, a.len() as int));
    }
}

/// Lower case changes the letters from `A` to `Z`, each to the one at the same distance from `a`,
/// and nothing else.
pub proof fn law_lower_case(s: Seq<char>)
    ensures
        ascii_lower(s).len() == s.len(),
        forall|i: int|
            0 <= i < s.len() ==> if 'A' <= #[trigger] s[i] <= 'Z' {
                ascii_lower(s)[i] as int - 'a' as int == s[i] as int - 'A' as int
            } else {
                ascii_lower(s)[i] == s[i]
            },
{
}

/// Replacing a character changes it wherever it stands, and nothing else.
pub proof fn law_replacing(s: Seq<char>, from: char, to: char)
    ensures
        with_replaced(s, from, to).len() == s.len(),
        forall|i: int|
            0 <= i < s.len() ==> with_replaced(s, from, to)[i] == if #[trigger] s[i] == from {
                to
            } else {
                s[i]
            },
{
}

/// The digits of a number are those of its tenth and then its last digit.
pub proof fn law_decimal(n: nat, digit: nat)
    requires
        digit < 10,
    ensures
        decimal(digit).len() == 1,
        decimal(digit)[0] as int == '0' as int + digit,
        n > 0 ==> decimal(10 * n + digit) == decimal(n) + decimal(digit),
{
    if n > 0 {
        assert((10 * n + digit) / 10 == n);
        assert((10 * n + digit) % 10 == digit);
        assert(decimal(10 * n + digit) =~= decimal(n) + decimal(digit));
    }
}

/// One more part follows the parts before it after a separator; the first has none.
pub proof fn law_joining(parts: Seq<Seq<char>>, part: Seq<char>, sep: Seq<char>)
    ensures
        joined(Seq::<Seq<char>>::empty(), sep) == Seq::<char>::empty(),
        joined(seq![part], sep) == part,
        parts.len() > 0 ==> joined(parts.push(part), sep) == joined(parts, sep) + sep + part,
{
    assert(parts.push(part).drop_last() =~= parts);
}

/// A text that is cut to size starts as the text does. It is the text itself exactly if that fits,
/// and else has as many of its characters as fit, and then the note.
pub proof fn law_cutting(s: Seq<char>, max: nat, note: Seq<char>)
    ensures
        s.len() <= max ==> capped(s, max as int, note) == s && first_chars(s, max as int) == s,
        s.len() > max ==> {
            &&& capped(s, max as int, note).len() == max + note.len()
            &&& capped(s, max as int, note).skip(max as int) == note
            &&& first_chars(s, max as int).len() == max
            &&& forall|i: int|
                0 <= i < max ==> capped(s, max as int, note)[i] == s[i] && #[trigger] first_chars(
                    s,
                    max as int,
                )[i] == s[i]
        },
{
    if s.len() > max {
        assert(capped(s, max as int, note).skip(max as int) =~= note);
    }
}

/// The texts of a list are those of its strings, each at its place.
pub proof fn law_texts_of_lists(parts: Seq<&str>, list: Seq<String>)
    ensures
        views(parts).len() == parts.len(),
        forall|i: int| 0 <= i < parts.len() ==> views(parts)[i] == (#[trigger] parts[i])@,
        texts(list).len() == list.len(),
        forall|i: int| 0 <= i < list.len() ==> texts(list)[i] == (#[trigger] list[i])@,
{
}

} // verus!
