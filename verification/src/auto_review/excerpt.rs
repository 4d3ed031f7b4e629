//! Excerpts of a change: the lines around what differs between two versions of a file.
use vstd::prelude::*;

use crate::text;

verus! {

/// How many unchanged lines an excerpt shows on either side of a change.
pub const CHANGE_CONTEXT_LINES: usize = 6;

/// How many characters an excerpt has at most, before the note that it was cut.
pub const MAX_CHANGE_EXCERPT_CHARS: usize = 2_400;

/// What an excerpt ends with if it was cut.
pub const EXCERPT_TRUNCATED: &'static str = "\n[excerpt truncated]";

/// How many lines two versions have in common at their start.
pub open spec fn common_prefix(a: Seq<Seq<char>>, b: Seq<Seq<char>>) -> nat
    decreases a.len(),
{
    if a.len() > 0 && b.len() > 0 && a[0] == b[0] {
        1 + common_prefix(a.drop_first(), b.drop_first())
    } else {
        0
    }
}

/// How many lines two versions have in common at their end.
pub open spec fn common_suffix(a: Seq<Seq<char>>, b: Seq<Seq<char>>) -> nat
    decreases a.len(),
{
    if a.len() > 0 && b.len() > 0 && a.last() == b.last() {
        1 + common_suffix(a.drop_last(), b.drop_last())
    } else {
        0
    }
}

/// How many lines at their end two versions have in common, beside those at their start.
pub open spec fn common_tail(a: Seq<Seq<char>>, b: Seq<Seq<char>>) -> nat {
    let prefix = common_prefix(a, b) as int;
    common_suffix(a.skip(prefix), b.skip(prefix))
}

/// Where the window of a change starts, in either version.
pub open spec fn window_start(before: Seq<Seq<char>>, after: Seq<Seq<char>>) -> int {
    let prefix = common_prefix(before, after);
    if prefix > CHANGE_CONTEXT_LINES {
        prefix - CHANGE_CONTEXT_LINES
    } else {
        0
    }
}

/// Where the window ends in a version of `count` lines, the last `tail` of them unchanged.
pub open spec fn window_end(count: int, tail: int) -> int {
    if tail > CHANGE_CONTEXT_LINES {
        count - tail + CHANGE_CONTEXT_LINES
    } else {
        count
    }
}

/// The lines one after the other, each with a line feed at its end.
pub open spec fn terminated(lines: Seq<Seq<char>>) -> Seq<char>
    decreases lines.len(),
{
    if lines.len() == 0 {
        seq![]
    } else {
        terminated(lines.drop_last()) + lines.last().push('\n')
    }
}

/// The lines from `start` to `end`, with dots in place of what is left out, and no line feed
/// at the end.
pub open spec fn excerpt_block(
    lines: Seq<Seq<char>>,
    start: int,
    end: int,
    has_prefix_gap: bool,
    has_suffix_gap: bool,
) -> Seq<char> {
    text::without_trailing(
        (if has_prefix_gap { "...\n"@ } else { seq![] })
            + terminated(lines.subrange(start, end))
            + (if has_suffix_gap { "..."@ } else { seq![] }),
        '\n',
    )
}

/// The number of the first line of a window that starts at `index`.
pub open spec fn first_line_number(index: int) -> int {
    index + 1
}

/// The number of the last line of a window that ends before `index`.
pub open spec fn last_line_number(index: int) -> int {
    if index > 1 {
        index
    } else {
        1
    }
}

/// What an excerpt says, given the lines of either version, before it is cut to size.
pub open spec fn full_excerpt(before: Seq<Seq<char>>, after: Seq<Seq<char>>) -> Seq<char> {
    let start = window_start(before, after);
    let tail = common_tail(before, after) as int;
    let before_end = window_end(before.len() as int, tail);
    let after_end = window_end(after.len() as int, tail);
    "Change window: before lines "@ + text::decimal(first_line_number(start) as nat) + "-"@
        + text::decimal(last_line_number(before_end) as nat) + ", after lines "@
        + text::decimal(first_line_number(start) as nat) + "-"@
        + text::decimal(last_line_number(after_end) as nat) + "\n--- before\n"@
        + excerpt_block(before, start, before_end, start > 0, before_end < before.len())
        + "\n--- after\n"@
        + excerpt_block(after, start, after_end, start > 0, after_end < after.len())
}

/// The excerpt of a change from one text to another.
pub open spec fn change_excerpt(before: Seq<char>, after: Seq<char>) -> Seq<char> {
    text::capped(
        full_excerpt(text::lines_of(before), text::lines_of(after)),
        MAX_CHANGE_EXCERPT_CHARS as int,
        EXCERPT_TRUNCATED@,
    )
}

/// The number of the first line of a window that starts at `index`.
pub fn line_range_start(index: usize) -> (number: usize)
    requires
        index < usize::MAX,
    ensures
        number == first_line_number(index as int),
{
    if index == 0 {
        1
    } else {
        index + 1
    }
}

/// The number of the last line of a window that ends before `index`.
pub fn line_range_end(index: usize) -> (number: usize)
    ensures
        number == last_line_number(index as int),
{
    if index > 1 {
        index
    } else {
        1
    }
}

/// The lines from `start` to `end`, with dots in place of what is left out, and no line feed
/// at the end.
pub fn render_excerpt_block(
    lines: &[&str],
    start: usize,
    end: usize,
    has_prefix_gap: bool,
    has_suffix_gap: bool,
) -> (block: String)
    requires
        start <= end <= lines@.len(),
    ensures
        block@ == excerpt_block(
            text::views(lines@),
            start as int,
            end as int,
            has_prefix_gap,
            has_suffix_gap,
        ),
{
    let mut block = String::new();
    if has_prefix_gap {
        block.append("...\n");
    }
    let ghost head = block@;
    let ghost all = text::views(lines@);
    let mut i: usize = start;
    assert(all.subrange(start as int, start as int) =~= seq![]);
    assert(block@ =~= head + terminated(all.subrange(start as int, start as int)));
    while i < end
        invariant
            start <= i <= end <= lines@.len(),
            all == text::views(lines@),
            block@ == head + terminated(all.subrange(start as int, i as int)),
        decreases end - i,
    {
        block.append(lines[i]);
        block.push('\n');
        proof {
            let longer = all.subrange(start as int, i + 1);
            assert(longer.drop_last() =~= all.subrange(start as int, i as int));
            assert(longer.last() == lines@[i as int]@);
            assert(block@ =~= head + terminated(longer));
        }
        i = i + 1;
    }
    if has_suffix_gap {
        block.append("...");
    }
    proof {
        let body = terminated(all.subrange(start as int, end as int));
        assert(block@ =~= (if has_prefix_gap { "...\n"@ } else { seq![] }) + body
            + (if has_suffix_gap { "..."@ } else { seq![] }));
    }
    String::from_str(text::trim_trailing(block.as_str(), '\n'))
}

/// How many lines two versions have in common at their start.
fn count_common_prefix(before: &Vec<&str>, after: &Vec<&str>) -> (count: usize)
    ensures
        count == common_prefix(text::views(before@), text::views(after@)),
        count <= before@.len(),
        count <= after@.len(),
{
    let ghost a = text::views(before@);
    let ghost b = text::views(after@);
    let mut count: usize = 0;
    assert(a.skip(0) =~= a && b.skip(0) =~= b);
    while count < before.len() && count < after.len() && text::same_text(
        before[count],
        after[count],
    )
        invariant
            count <= before@.len(),
            count <= after@.len(),
            a == text::views(before@),
            b == text::views(after@),
            count + common_prefix(a.skip(count as int), b.skip(count as int)) == common_prefix(a, b),
        decreases before@.len() - count,
    {
        proof {
            assert(a.skip(count as int).drop_first() =~= a.skip(count + 1));
            assert(b.skip(count as int).drop_first() =~= b.skip(count + 1));
        }
        count = count + 1;
    }
    count
}

/// How many lines at their end two versions have in common, beside those at their start.
fn count_common_tail(before: &Vec<&str>, after: &Vec<&str>, prefix: usize) -> (count: usize)
    requires
        prefix == common_prefix(text::views(before@), text::views(after@)),
        prefix <= before@.len(),
        prefix <= after@.len(),
    ensures
        count == common_tail(text::views(before@), text::views(after@)),
        prefix + count <= before@.len(),
        prefix + count <= after@.len(),
{
    let ghost a = text::views(before@).skip(prefix as int);
    let ghost b = text::views(after@).skip(prefix as int);
    let mut count: usize = 0;
    assert(a.take(a.len() as int) =~= a && b.take(b.len() as int) =~= b);
    while count < before.len() - prefix && count < after.len() - prefix && text::same_text(
        before[before.len() - 1 - count],
        after[after.len() - 1 - count],
    )
        invariant
            prefix + count <= before@.len(),
            prefix + count <= after@.len(),
            a == text::views(before@).skip(prefix as int),
            b == text::views(after@).skip(prefix as int),
            count + common_suffix(a.take(a.len() - count), b.take(b.len() - count))
                == common_suffix(a, b),
        decreases before@.len() - count,
    {
        proof {
            let x = a.take(a.len() - count);
            let y = b.take(b.len() - count);
            assert(x.drop_last() =~= a.take(a.len() - count - 1));
            assert(y.drop_last() =~= b.take(b.len() - count - 1));
            assert(x.last() == before@[before@.len() - 1 - count]@);
            assert(y.last() == after@[after@.len() - 1 - count]@);
        }
        count = count + 1;
    }
    proof {
        let x = a.take(a.len() - count);
        let y = b.take(b.len() - count);
        if x.len() > 0 && y.len() > 0 {
            assert(x.last() == before@[before@.len() - 1 - count]@);
            assert(y.last() == after@[after@.len() - 1 - count]@);
        }
    }
    count
}

/// Where the window ends in a version of `count` lines, the last `tail` of them unchanged.
fn end_of_window(count: usize, tail: usize) -> (end: usize)
    requires
        tail <= count,
    ensures
        end == window_end(count as int, tail as int),
        count - tail <= end <= count,
{
    if tail > CHANGE_CONTEXT_LINES {
        count - tail + CHANGE_CONTEXT_LINES
    } else {
        count
    }
}

/// The excerpt of a change from one text to another: the lines that differ and those around
/// them, in either version.
pub fn build_change_excerpt(before: &str, after: &str) -> (excerpt: String)
    ensures
        excerpt@ == change_excerpt(before@, after@),
        excerpt@.len() <= 2_400 + "\n[excerpt truncated]"@.len(),
{
    let before_lines = text::split_lines(before);
    let after_lines = text::split_lines(after);
    let prefix = count_common_prefix(&before_lines, &after_lines);
    let tail = count_common_tail(&before_lines, &after_lines, prefix);

    let start: usize = if prefix > CHANGE_CONTEXT_LINES {
        prefix - CHANGE_CONTEXT_LINES
    } else {
        0
    };
    let before_end = end_of_window(before_lines.len(), tail);
    let after_end = end_of_window(after_lines.len(), tail);

    let before_block = render_excerpt_block(
        before_lines.as_slice(),
        start,
        before_end,
        start > 0,
        before_end < before_lines.len(),
    );
    let after_block = render_excerpt_block(
        after_lines.as_slice(),
        start,
        after_end,
        start > 0,
        after_end < after_lines.len(),
    );

    let mut excerpt = String::from_str("Change window: before lines ");
    text::append_decimal(&mut excerpt, line_range_start(start));
    excerpt.append("-");
    text::append_decimal(&mut excerpt, line_range_end(before_end));
    excerpt.append(", after lines ");
    text::append_decimal(&mut excerpt, line_range_start(start));
    excerpt.append("-");
    text::append_decimal(&mut excerpt, line_range_end(after_end));
    excerpt.append("\n--- before\n");
    excerpt.append(before_block.as_str());
    excerpt.append("\n--- after\n");
    excerpt.append(after_block.as_str());
    assert(excerpt@ == full_excerpt(text::lines_of(before@), text::lines_of(after@)));

    text::cap_chars(excerpt, MAX_CHANGE_EXCERPT_CHARS, EXCERPT_TRUNCATED)
}

proof fn lemma_common_prefix(a: Seq<Seq<char>>, b: Seq<Seq<char>>)
    ensures
        common_prefix(a, b) <= a.len(),
        common_prefix(a, b) <= b.len(),
        a.take(common_prefix(a, b) as int) == b.take(common_prefix(a, b) as int),
    decreases a.len(),
{
    let n = common_prefix(a, b) as int;
    if a.len() > 0 && b.len() > 0 && a[0] == b[0] {
        lemma_common_prefix(a.drop_first(), b.drop_first());
        assert(a.take(n) =~= seq![a[0]] + a.drop_first().take(n - 1));
        assert(b.take(n) =~= seq![b[0]] + b.drop_first().take(n - 1));
    } else {
        assert(a.take(n) =~= b.take(n));
    }
}

proof fn lemma_common_suffix(a: Seq<Seq<char>>, b: Seq<Seq<char>>)
    ensures
        common_suffix(a, b) <= a.len(),
        common_suffix(a, b) <= b.len(),
        a.skip(a.len() - common_suffix(a, b)) == b.skip(b.len() - common_suffix(a, b)),
    decreases a.len(),
{
    let n = common_suffix(a, b) as int;
    if a.len() > 0 && b.len() > 0 && a.last() == b.last() {
        lemma_common_suffix(a.drop_last(), b.drop_last());
        assert(a.skip(a.len() - n) =~= a.drop_last().skip(a.len() - n).push(a.last()));
        assert(b.skip(b.len() - n) =~= b.drop_last().skip(b.len() - n).push(b.last()));
    } else {
        assert(a.skip(a.len() - n) =~= b.skip(b.len() - n));
    }
}

/// The window of a change lies within either version, and what it leaves out is the same in
/// both: no changed line stands outside it.
pub proof fn law_window_covers_the_change(before: Seq<Seq<char>>, after: Seq<Seq<char>>)
    ensures
        ({
            let start = window_start(before, after);
            let tail = common_tail(before, after) as int;
            let before_end = window_end(before.len() as int, tail);
            let after_end = window_end(after.len() as int, tail);
            &&& 0 <= start <= before_end <= before.len()
            &&& start <= after_end <= after.len()
            &&& before.take(start) == after.take(start)
            &&& before.skip(before_end) == after.skip(after_end)
        }),
{
    lemma_common_prefix(before, after);
    let prefix = common_prefix(before, after) as int;
    let a = before.skip(prefix);
    let b = after.skip(prefix);
    lemma_common_suffix(a, b);
    let start = window_start(before, after);
    let tail = common_tail(before, after) as int;
    let before_end = window_end(before.len() as int, tail);
    let after_end = window_end(after.len() as int, tail);
    assert(before.take(start) =~= before.take(prefix).take(start));
    assert(after.take(start) =~= after.take(prefix).take(start));
    assert(before.skip(before_end) =~= a.skip(a.len() - tail).skip(
        before_end - (before.len() - tail),
    ));
    assert(after.skip(after_end) =~= b.skip(b.len() - tail).skip(
        after_end - (after.len() - tail),
    ));
}

/// An excerpt has no more characters than the limit and the note that it was cut.
pub proof fn law_excerpt_is_bounded(before: Seq<char>, after: Seq<char>)
    ensures
        change_excerpt(before, after).len() <= MAX_CHANGE_EXCERPT_CHARS + EXCERPT_TRUNCATED@.len(),
{
}

proof fn lemma_terminated_has_line(lines: Seq<Seq<char>>, k: int)
    requires
        0 <= k < lines.len(),
    ensures
        exists|i: int| text::occurs_at(terminated(lines), lines[k], i),
    decreases lines.len(),
{
    let shorter = lines.drop_last();
    let head = terminated(shorter);
    if k == lines.len() - 1 {
        let at = head.len() as int;
        assert(terminated(lines).subrange(at, at + lines[k].len()) =~= lines[k]);
        assert(text::occurs_at(terminated(lines), lines[k], at));
    } else {
        lemma_terminated_has_line(shorter, k);
        let i = choose|i: int| text::occurs_at(head, shorter[k], i);
        assert(terminated(lines).subrange(i, i + lines[k].len()) =~= head.subrange(
            i,
            i + lines[k].len(),
        ));
        assert(text::occurs_at(terminated(lines), lines[k], i));
    }
}

proof fn lemma_block_has_line(
    lines: Seq<Seq<char>>,
    start: int,
    end: int,
    has_prefix_gap: bool,
    has_suffix_gap: bool,
    k: int,
)
    requires
        0 <= start <= k < end <= lines.len(),
        forall|j: int| 0 <= j < lines[k].len() ==> lines[k][j] != '\n',
    ensures
        text::has_text(
            excerpt_block(lines, start, end, has_prefix_gap, has_suffix_gap),
            lines[k],
        ),
{
    let pre: Seq<char> = if has_prefix_gap { "...\n"@ } else { seq![] };
    let suf: Seq<char> = if has_suffix_gap { "..."@ } else { seq![] };
    let shown = lines.subrange(start, end);
    let line = lines[k];
    let whole = pre + terminated(shown) + suf;
    let block = text::without_trailing(whole, '\n');
    assert(shown[k - start] == line);
    lemma_terminated_has_line(shown, k - start);
    text::lemma_has_text_within(pre, terminated(shown), suf, line);
    let i = choose|i: int| text::occurs_at(whole, line, i);
    text::lemma_without_trailing(whole, '\n');
    if line.len() > 0 {
        let last = i + line.len() - 1;
        assert(whole[last] == whole.subrange(i, i + line.len())[line.len() - 1]);
        assert(line[line.len() - 1] != '\n');
        assert(last < block.len());
        assert(block.subrange(i, i + line.len()) =~= whole.subrange(i, i + line.len()));
        assert(text::occurs_at(block, line, i));
    } else {
        assert(block.subrange(0, 0) =~= line);
        assert(text::occurs_at(block, line, 0));
    }
}

/// An excerpt that was not cut shows every line of the window, in either version.
pub proof fn law_excerpt_shows_the_window(before: Seq<char>, after: Seq<char>)
    requires
        full_excerpt(text::lines_of(before), text::lines_of(after)).len()
            <= MAX_CHANGE_EXCERPT_CHARS,
    ensures
        ({
            let old_lines = text::lines_of(before);
            let new_lines = text::lines_of(after);
            let start = window_start(old_lines, new_lines);
            let tail = common_tail(old_lines, new_lines) as int;
            &&& forall|k: int|
                start <= k < window_end(old_lines.len() as int, tail) ==> text::has_text(
                    change_excerpt(before, after),
                    #[trigger] old_lines[k],
                )
            &&& forall|k: int|
                start <= k < window_end(new_lines.len() as int, tail) ==> text::has_text(
                    change_excerpt(before, after),
                    #[trigger] new_lines[k],
                )
        }),
{
    let old_lines = text::lines_of(before);
    let new_lines = text::lines_of(after);
    let start = window_start(old_lines, new_lines);
    let tail = common_tail(old_lines, new_lines) as int;
    let old_end = window_end(old_lines.len() as int, tail);
    let new_end = window_end(new_lines.len() as int, tail);
    law_window_covers_the_change(old_lines, new_lines);
    text::lemma_lines_hold_no_line_feed(before);
    text::lemma_lines_hold_no_line_feed(after);
    let heading = "Change window: before lines "@ + text::decimal(first_line_number(start) as nat)
        + "-"@ + text::decimal(last_line_number(old_end) as nat) + ", after lines "@
        + text::decimal(first_line_number(start) as nat) + "-"@ + text::decimal(
        last_line_number(new_end) as nat,
    ) + "\n--- before\n"@;
    let old_block = excerpt_block(old_lines, start, old_end, start > 0, old_end < old_lines.len());
    let new_block = excerpt_block(new_lines, start, new_end, start > 0, new_end < new_lines.len());
    let full = full_excerpt(old_lines, new_lines);
    let between = "\n--- after\n"@;
    assert(full =~= heading + old_block + (between + new_block));
    assert(full =~= (heading + old_block + between) + new_block + Seq::<char>::empty());
    assert forall|k: int| start <= k < old_end implies text::has_text(
        change_excerpt(before, after),
        #[trigger] old_lines[k],
    ) by {
        lemma_block_has_line(old_lines, start, old_end, start > 0, old_end < old_lines.len(), k);
        text::lemma_has_text_within(heading, old_block, between + new_block, old_lines[k]);
    }
    assert forall|k: int| start <= k < new_end implies text::has_text(
        change_excerpt(before, after),
        #[trigger] new_lines[k],
    ) by {
        lemma_block_has_line(new_lines, start, new_end, start > 0, new_end < new_lines.len(), k);
        text::lemma_has_text_within(
            heading + old_block + between,
            new_block,
            Seq::<char>::empty(),
            new_lines[k],
        );
    }
}

proof fn lemma_prefix_is_longest(a: Seq<Seq<char>>, b: Seq<Seq<char>>, k: int)
    requires
        0 <= k <= a.len(),
        k <= b.len(),
        a.take(k) == b.take(k),
    ensures
        k <= common_prefix(a, b),
    decreases k,
{
    if k > 0 {
        assert(a.take(k)[0] == b.take(k)[0]);
        assert(a.drop_first().take(k - 1) =~= a.take(k).drop_first());
        assert(b.drop_first().take(k - 1) =~= b.take(k).drop_first());
        lemma_prefix_is_longest(a.drop_first(), b.drop_first(), k - 1);
    }
}

proof fn lemma_suffix_is_longest(a: Seq<Seq<char>>, b: Seq<Seq<char>>, k: int)
    requires
        0 <= k <= a.len(),
        k <= b.len(),
        a.skip(a.len() - k) == b.skip(b.len() - k),
    ensures
        k <= common_suffix(a, b),
    decreases k,
{
    if k > 0 {
        assert(a.skip(a.len() - k)[k - 1] == b.skip(b.len() - k)[k - 1]);
        assert(a.drop_last().skip(a.len() - k) =~= a.skip(a.len() - k).drop_last());
        assert(b.drop_last().skip(b.len() - k) =~= b.skip(b.len() - k).drop_last());
        lemma_suffix_is_longest(a.drop_last(), b.drop_last(), k - 1);
    }
}

/// Two versions have as many lines in common at their start as they can have, and beside those as
/// many at their end as they can have, however many lines either version has.
pub proof fn law_common_ends_are_longest(a: Seq<Seq<char>>, b: Seq<Seq<char>>, k: int)
    ensures
        0 <= k <= a.len() && k <= b.len() ==> (a.take(k) == b.take(k) <==> k <= common_prefix(a, b)),
        0 <= k <= a.len() - common_prefix(a, b) && k <= b.len() - common_prefix(a, b) ==> (a.skip(
            a.len() - k,
        ) == b.skip(b.len() - k) <==> k <= common_tail(a, b)),
{
    lemma_common_prefix(a, b);
    let n = common_prefix(a, b) as int;
    let x = a.skip(n);
    let y = b.skip(n);
    lemma_common_suffix(x, y);
    let m = common_tail(a, b) as int;
    if 0 <= k <= a.len() && k <= b.len() {
        if a.take(k) == b.take(k) {
            lemma_prefix_is_longest(a, b, k);
        }
        if k <= n {
            assert(a.take(k) =~= a.take(n).take(k));
            assert(b.take(k) =~= b.take(n).take(k));
        }
    }
    if 0 <= k <= x.len() && k <= y.len() {
        assert(x.skip(x.len() - k) =~= a.skip(a.len() - k));
        assert(y.skip(y.len() - k) =~= b.skip(b.len() - k));
        if a.skip(a.len() - k) == b.skip(b.len() - k) {
            lemma_suffix_is_longest(x, y, k);
        }
        if k <= m {
            assert(x.skip(x.len() - k) =~= x.skip(x.len() - m).skip(m - k));
            assert(y.skip(y.len() - k) =~= y.skip(y.len() - m).skip(m - k));
        }
    }
}

/// Whether `x` turned into `y`, before the lines `s`, is all that a change is about: no line at the
/// start or at the end of either could be left out.
pub open spec fn is_whole_change(x: Seq<Seq<char>>, y: Seq<Seq<char>>, s: Seq<Seq<char>>) -> bool {
    &&& x.len() + s.len() > 0 && y.len() + s.len() > 0 ==> (x + s)[0] != (y + s)[0]
    &&& x.len() > 0 && y.len() > 0 ==> x[x.len() - 1] != y[y.len() - 1]
}

/// Of the lines before and after a change, whatever their number and that of the changed lines, the
/// window takes in those that are next to the change, six on either side at most.
pub proof fn law_window_is_tight(
    p: Seq<Seq<char>>,
    x: Seq<Seq<char>>,
    y: Seq<Seq<char>>,
    s: Seq<Seq<char>>,
)
    requires
        is_whole_change(x, y, s),
    ensures
        common_prefix(p + x + s, p + y + s) == p.len(),
        common_tail(p + x + s, p + y + s) == s.len(),
        window_start(p + x + s, p + y + s) == (if p.len() > 6 {
            p.len() - 6
        } else {
            0
        }),
        window_end((p + x + s).len() as int, s.len() as int) == p.len() + x.len() + (if s.len() > 6 {
            6
        } else {
            s.len() as int
        }),
        window_end((p + y + s).len() as int, s.len() as int) == p.len() + y.len() + (if s.len() > 6 {
            6
        } else {
            s.len() as int
        }),
{
    let a = p + x + s;
    let b = p + y + s;
    let n = p.len() as int;
    let m = s.len() as int;
    assert(a.take(n) =~= p && b.take(n) =~= p);
    law_common_ends_are_longest(a, b, n);
    if a.len() > n && b.len() > n {
        assert(a[n] == (x + s)[0] && b[n] == (y + s)[0]);
        assert(a.take(n + 1)[n] != b.take(n + 1)[n]);
    }
    law_common_ends_are_longest(a, b, n + 1);
    lemma_common_prefix(a, b);
    assert(common_prefix(a, b) == n);
    assert(a.skip(a.len() - m) =~= s && b.skip(b.len() - m) =~= s);
    law_common_ends_are_longest(a, b, m);
    if x.len() > 0 && y.len() > 0 {
        assert(a.skip(a.len() - (m + 1))[0] == x[x.len() - 1]);
        assert(b.skip(b.len() - (m + 1))[0] == y[y.len() - 1]);
    }
    law_common_ends_are_longest(a, b, m + 1);
    lemma_common_suffix(a.skip(n), b.skip(n));
    assert(common_tail(a, b) == m);
}

proof fn lemma_terminated_parts(a: Seq<Seq<char>>, b: Seq<Seq<char>>)
    ensures
        terminated(a + b) == terminated(a) + terminated(b),
    decreases b.len(),
{
    if b.len() == 0 {
        assert(a + b =~= a);
        assert(terminated(a) + terminated(b) =~= terminated(a));
    } else {
        assert((a + b).drop_last() =~= a + b.drop_last());
        lemma_terminated_parts(a, b.drop_last());
        assert(terminated(a + b) =~= terminated(a) + terminated(b));
    }
}

proof fn lemma_terminated_is_joined(lines: Seq<Seq<char>>)
    requires
        lines.len() > 0,
    ensures
        terminated(lines) == text::joined(lines, "\n"@).push('\n'),
    decreases lines.len(),
{
    reveal_strlit("\n");
    assert("\n"@ =~= seq!['\n']);
    reveal_with_fuel(terminated, 2);
    if lines.len() == 1 {
        assert(lines.drop_last() =~= seq![]);
        assert(terminated(lines) =~= lines[0].push('\n'));
    } else {
        lemma_terminated_is_joined(lines.drop_last());
        assert(terminated(lines) =~= text::joined(lines, "\n"@).push('\n'));
    }
}

/// Dots, if there is a gap.
pub open spec fn dots(gap: bool) -> Seq<Seq<char>> {
    if gap {
        seq!["..."@]
    } else {
        seq![]
    }
}

/// A block is its lines, with dots for a gap before and after them, one to a line, and without empty
/// lines at its end.
pub proof fn law_block_shows_its_lines(
    lines: Seq<Seq<char>>,
    start: int,
    end: int,
    has_prefix_gap: bool,
    has_suffix_gap: bool,
)
    requires
        0 <= start <= end <= lines.len(),
    ensures
        excerpt_block(lines, start, end, has_prefix_gap, has_suffix_gap) == text::without_trailing(
            text::joined(
                dots(has_prefix_gap) + lines.subrange(start, end) + dots(has_suffix_gap),
                "\n"@,
            ),
            '\n',
        ),
{
    reveal_strlit("\n");
    reveal_strlit("...");
    reveal_strlit("...\n");
    assert("\n"@ =~= seq!['\n']);
    assert("...\n"@ =~= "..."@.push('\n'));
    let shown = lines.subrange(start, end);
    let front = dots(has_prefix_gap) + shown;
    let parts = front + dots(has_suffix_gap);
    lemma_terminated_parts(dots(has_prefix_gap), shown);
    let head: Seq<char> = if has_prefix_gap { "...\n"@ } else { seq![] };
    let foot: Seq<char> = if has_suffix_gap { "..."@ } else { seq![] };
    assert(terminated(dots(has_prefix_gap)) =~= head) by {
        reveal_with_fuel(terminated, 2);
        assert(seq!["..."@].drop_last() =~= seq![]);
    }
    let whole = head + terminated(shown) + foot;
    if has_suffix_gap {
        assert(parts =~= front.push("..."@));
        assert(parts.drop_last() =~= front);
        if front.len() > 0 {
            lemma_terminated_is_joined(front);
            assert(whole =~= text::joined(parts, "\n"@));
        } else {
            assert(whole =~= text::joined(parts, "\n"@));
        }
    } else {
        assert(parts =~= front);
        if front.len() > 0 {
            lemma_terminated_is_joined(front);
            let all = text::joined(parts, "\n"@);
            assert(whole =~= all.push('\n'));
            assert(all.push('\n').drop_last() =~= all);
        } else {
            assert(whole =~= text::joined(parts, "\n"@));
        }
    }
}

/// What an excerpt shows of one version: the changed lines and those next to them, with dots for
/// what is left out before and after.
pub open spec fn shown_change(p: Seq<Seq<char>>, x: Seq<Seq<char>>, s: Seq<Seq<char>>) -> Seq<char> {
    text::without_trailing(
        text::joined(
            dots(p.len() > 6) + p.skip(
                if p.len() > 6 {
                    p.len() - 6
                } else {
                    0
                },
            ) + x + s.take(
                if s.len() > 6 {
                    6
                } else {
                    s.len() as int
                },
            ) + dots(s.len() > 6),
            "\n"@,
        ),
        '\n',
    )
}

/// The numbers of the first and the last line that an excerpt shows of one version.
pub open spec fn shown_numbers(p: int, x: int, s: int) -> Seq<char> {
    let last = p + x + (if s > 6 {
        6
    } else {
        s
    });
    text::decimal(
        (if p > 6 {
            p - 5
        } else {
            1
        }) as nat,
    ) + "-"@ + text::decimal(
        (if last > 0 {
            last
        } else {
            1
        }) as nat,
    )
}

proof fn lemma_block_of_a_change(p: Seq<Seq<char>>, x: Seq<Seq<char>>, s: Seq<Seq<char>>)
    ensures
        ({
            let lines = p + x + s;
            let start: int = if p.len() > 6 {
                p.len() - 6
            } else {
                0
            };
            let end = p.len() + x.len() + (if s.len() > 6 {
                6
            } else {
                s.len() as int
            });
            excerpt_block(lines, start, end, start > 0, end < lines.len()) == shown_change(p, x, s)
        }),
{
    let lines = p + x + s;
    let start: int = if p.len() > 6 {
        p.len() - 6
    } else {
        0
    };
    let taken: int = if s.len() > 6 {
        6
    } else {
        s.len() as int
    };
    let end = p.len() + x.len() + taken;
    law_block_shows_its_lines(lines, start, end, start > 0, end < lines.len());
    assert(lines.subrange(start, end) =~= p.skip(start) + x + s.take(taken));
    let head = dots(p.len() > 6);
    let foot = dots(s.len() > 6);
    assert(head + (p.skip(start) + x + s.take(taken)) + foot =~= head + p.skip(start) + x + s.take(
        taken,
    ) + foot);
}

proof fn lemma_grouped(
    opening: Seq<char>,
    first: Seq<char>,
    dash: Seq<char>,
    last: Seq<char>,
    middle: Seq<char>,
    next_last: Seq<char>,
)
    ensures
        opening + first + dash + last + middle + first + dash + next_last == opening + (first + dash
            + last) + middle + (first + dash + next_last),
{
    assert(opening + first + dash + last =~= opening + (first + dash + last));
    let front = opening + (first + dash + last) + middle;
    assert(front + first + dash + next_last =~= front + (first + dash + next_last));
}

/// The excerpt of a change from `x` to `y`, after the lines `p` and before the lines `s`: it tells
/// which lines it shows of either version, and shows them, first as they were and then as they are.
pub proof fn law_excerpt_of_a_change(
    p: Seq<Seq<char>>,
    x: Seq<Seq<char>>,
    y: Seq<Seq<char>>,
    s: Seq<Seq<char>>,
)
    requires
        is_whole_change(x, y, s),
    ensures
        full_excerpt(p + x + s, p + y + s) == "Change window: before lines "@ + shown_numbers(
            p.len() as int,
            x.len() as int,
            s.len() as int,
        ) + ", after lines "@ + shown_numbers(p.len() as int, y.len() as int, s.len() as int)
            + "\n--- before\n"@ + shown_change(p, x, s) + "\n--- after\n"@ + shown_change(p, y, s),
{
    law_window_is_tight(p, x, y, s);
    lemma_block_of_a_change(p, x, s);
    lemma_block_of_a_change(p, y, s);
    let start = window_start(p + x + s, p + y + s);
    lemma_grouped(
        "Change window: before lines "@,
        text::decimal((start + 1) as nat),
        "-"@,
        text::decimal(
            last_line_number(window_end((p + x + s).len() as int, s.len() as int)) as nat,
        ),
        ", after lines "@,
        text::decimal(
            last_line_number(window_end((p + y + s).len() as int, s.len() as int)) as nat,
        ),
    );
}

proof fn lemma_whole_change(a: Seq<Seq<char>>, b: Seq<Seq<char>>)
    ensures
        ({
            let n = common_prefix(a, b) as int;
            let m = common_tail(a, b) as int;
            let s = a.skip(a.len() - m);
            &&& n + m <= a.len()
            &&& n + m <= b.len()
            &&& a == a.take(n) + a.subrange(n, a.len() - m) + s
            &&& b == a.take(n) + b.subrange(n, b.len() - m) + s
            &&& is_whole_change(a.subrange(n, a.len() - m), b.subrange(n, b.len() - m), s)
        }),
{
    lemma_common_prefix(a, b);
    let n = common_prefix(a, b) as int;
    lemma_common_suffix(a.skip(n), b.skip(n));
    let m = common_tail(a, b) as int;
    let p = a.take(n);
    let x = a.subrange(n, a.len() - m);
    let y = b.subrange(n, b.len() - m);
    let s = a.skip(a.len() - m);
    law_common_ends_are_longest(a, b, m);
    assert(a =~= p + x + s);
    assert(b =~= b.take(n) + y + b.skip(b.len() - m));
    assert(is_whole_change(x, y, s)) by {
        if x.len() + s.len() > 0 && y.len() + s.len() > 0 {
            assert((x + s)[0] == a[n]);
            assert((y + b.skip(b.len() - m))[0] == b[n]);
            law_common_ends_are_longest(a, b, n + 1);
            if a[n] == b[n] {
                assert(a.take(n + 1) =~= a.take(n).push(a[n]));
                assert(b.take(n + 1) =~= b.take(n).push(b[n]));
            }
        }
        if x.len() > 0 && y.len() > 0 {
            law_common_ends_are_longest(a, b, m + 1);
            if x[x.len() - 1] == y[y.len() - 1] {
                assert(a.skip(a.len() - (m + 1)) =~= seq![x[x.len() - 1]] + a.skip(a.len() - m));
                assert(b.skip(b.len() - (m + 1)) =~= seq![y[y.len() - 1]] + b.skip(b.len() - m));
            }
        }
    }
}

/// Every two versions come apart into what they have in common at their start, what has changed,
/// and what they have in common at their end.
pub proof fn law_every_change_is_whole(a: Seq<Seq<char>>, b: Seq<Seq<char>>)
    ensures
        exists|p: Seq<Seq<char>>, x: Seq<Seq<char>>, y: Seq<Seq<char>>, s: Seq<Seq<char>>|
            a == #[trigger] (p + x + s) && b == #[trigger] (p + y + s) && is_whole_change(x, y, s),
{
    lemma_whole_change(a, b);
}

/// An excerpt is the whole of it as long as it has no more than 2400 characters, and else its first
/// 2400 characters and a note.
pub proof fn law_excerpt_is_cut_to_size(before: Seq<char>, after: Seq<char>)
    ensures
        ({
            let full = full_excerpt(text::lines_of(before), text::lines_of(after));
            &&& full.len() <= 2400 ==> change_excerpt(before, after) == full
            &&& full.len() > 2400 ==> change_excerpt(before, after) == full.take(2400)
                + "\n[excerpt truncated]"@
        }),
{
}

} // verus!
