//! What of a text carries meaning: its lines, but for blank ones and whitespace at their end.
use vstd::prelude::*;

use crate::text;

verus! {

/// The lines that carry meaning: without the whitespace at their end, the blank ones left out.
pub open spec fn meaningful_lines(lines: Seq<Seq<char>>) -> Seq<Seq<char>>
    decreases lines.len(),
{
    if lines.len() == 0 {
        seq![]
    } else {
        let earlier = meaningful_lines(lines.drop_last());
        let line = text::trimmed_end(lines.last());
        if line.len() > 0 {
            earlier.push(line)
        } else {
            earlier
        }
    }
}

/// A text reduced to its lines that carry meaning.
pub open spec fn normalized(input: Seq<char>) -> Seq<char> {
    text::joined(meaningful_lines(text::lines_of(input)), "\n"@)
}

/// A text reduced to its lines that carry meaning: two texts that differ only in blank lines or
/// in whitespace at the end of lines come out the same.
pub fn normalize_for_meaningful_change(input: &str) -> (output: String)
    ensures
        output@ == normalized(input@),
{
    let lines = text::split_lines(input);
    let ghost all = text::lines_of(input@);
    let mut kept: Vec<&str> = Vec::new();
    let mut i: usize = 0;
    assert(all.take(0) =~= seq![]);
    assert(text::views(kept@) =~= seq![]);
    while i < lines.len()
        invariant
            i <= lines@.len(),
            text::views(lines@) == all,
            text::views(kept@) == meaningful_lines(all.take(i as int)),
        decreases lines@.len() - i,
    {
        let line = text::trim_end(lines[i]);
        let ghost before = text::views(kept@);
        proof {
            assert(all.take(i + 1).drop_last() =~= all.take(i as int));
            assert(all.take(i + 1).last() == lines@[i as int]@);
        }
        if !line.is_empty() {
            kept.push(line);
            assert(text::views(kept@) =~= before.push(line@));
        }
        i = i + 1;
    }
    assert(all.take(lines@.len() as int) =~= all);
    text::join_text(kept.as_slice(), "\n")
}

proof fn lemma_meaningful_of_parts(a: Seq<Seq<char>>, b: Seq<Seq<char>>)
    ensures
        meaningful_lines(a + b) == meaningful_lines(a) + meaningful_lines(b),
    decreases b.len(),
{
    if b.len() == 0 {
        assert(a + b =~= a);
        assert(meaningful_lines(a) + meaningful_lines(b) =~= meaningful_lines(a));
    } else {
        assert((a + b).drop_last() =~= a + b.drop_last());
        lemma_meaningful_of_parts(a, b.drop_last());
        assert(meaningful_lines(a + b) =~= meaningful_lines(a) + meaningful_lines(b));
    }
}

/// A line that carries meaning as it stands: not empty, with no line feed in it and no
/// whitespace at its end.
pub open spec fn is_meaningful_line(line: Seq<char>) -> bool {
    &&& line.len() > 0
    &&& !text::is_white(line.last())
    &&& forall|j: int| 0 <= j < line.len() ==> line[j] != '\n'
}

proof fn lemma_meaningful_lines(lines: Seq<Seq<char>>)
    requires
        forall|i: int, j: int|
            0 <= i < lines.len() && 0 <= j < lines[i].len() ==> #[trigger] lines[i][j] != '\n',
    ensures
        forall|i: int|
            0 <= i < meaningful_lines(lines).len() ==> is_meaningful_line(
                #[trigger] meaningful_lines(lines)[i],
            ),
    decreases lines.len(),
{
    if lines.len() > 0 {
        let shorter = lines.drop_last();
        assert forall|i: int, j: int|
            0 <= i < shorter.len() && 0 <= j < shorter[i].len() implies #[trigger] shorter[i][j]
            != '\n' by {
            assert(lines[i][j] != '\n');
        }
        lemma_meaningful_lines(shorter);
        text::lemma_trimmed_end(lines.last());
        let line = text::trimmed_end(lines.last());
        assert forall|j: int| 0 <= j < line.len() implies line[j] != '\n' by {
            assert(line[j] == lines[lines.len() - 1][j]);
        }
        let earlier = meaningful_lines(shorter);
        assert forall|i: int| 0 <= i < meaningful_lines(lines).len() implies is_meaningful_line(
            #[trigger] meaningful_lines(lines)[i],
        ) by {
            if i < earlier.len() {
                assert(is_meaningful_line(earlier[i]));
            } else {
                assert(meaningful_lines(lines)[i] == line);
            }
        }
    }
}

proof fn lemma_meaningful_lines_stay(lines: Seq<Seq<char>>)
    requires
        forall|i: int| 0 <= i < lines.len() ==> is_meaningful_line(#[trigger] lines[i]),
    ensures
        meaningful_lines(lines) == lines,
    decreases lines.len(),
{
    if lines.len() > 0 {
        lemma_meaningful_lines_stay(lines.drop_last());
        assert(is_meaningful_line(lines[lines.len() - 1]));
        assert(lines.drop_last().push(lines.last()) =~= lines);
    }
}

proof fn lemma_lines_of_joined(lines: Seq<Seq<char>>)
    requires
        forall|i: int| 0 <= i < lines.len() ==> is_meaningful_line(#[trigger] lines[i]),
    ensures
        text::lines_of(text::joined(lines, "\n"@)) == lines,
        lines.len() > 0 ==> text::joined(lines, "\n"@).len() > 0 && !text::is_white(
            text::joined(lines, "\n"@).last(),
        ),
    decreases lines.len(),
{
    reveal_strlit("\n");
    assert("\n"@ =~= seq!['\n']);
    if lines.len() > 0 {
        let last = lines.last();
        assert(is_meaningful_line(lines[lines.len() - 1]));
        text::lemma_first_index(last, '\n', last.len() as int);
        assert(text::lines_of(last) =~= seq![last]);
        if lines.len() > 1 {
            let shorter = lines.drop_last();
            let head = text::joined(shorter, "\n"@);
            lemma_lines_of_joined(shorter);
            text::lemma_lines_of_terminated(head);
            text::lemma_lines_of_parts(head, last);
            assert(head + seq!['\n'] =~= head.push('\n'));
            assert(shorter + seq![last] =~= lines);
        } else {
            assert(lines =~= seq![last]);
        }
    }
}

proof fn lemma_normalized(input: Seq<char>)
    ensures
        text::lines_of(normalized(input)) == meaningful_lines(text::lines_of(input)),
        meaningful_lines(meaningful_lines(text::lines_of(input))) == meaningful_lines(
            text::lines_of(input),
        ),
{
    text::lemma_lines_hold_no_line_feed(input);
    lemma_meaningful_lines(text::lines_of(input));
    lemma_lines_of_joined(meaningful_lines(text::lines_of(input)));
    lemma_meaningful_lines_stay(meaningful_lines(text::lines_of(input)));
}

/// Two texts come out the same exactly if their lines that carry meaning are the same.
pub proof fn law_same_meaning(a: Seq<char>, b: Seq<char>)
    ensures
        normalized(a) == normalized(b) <==> meaningful_lines(text::lines_of(a))
            == meaningful_lines(text::lines_of(b)),
{
    lemma_normalized(a);
    lemma_normalized(b);
}

/// A text that was reduced stays as it is when reduced again.
pub proof fn law_normalizing_twice(input: Seq<char>)
    ensures
        normalized(normalized(input)) == normalized(input),
{
    lemma_normalized(input);
}

proof fn lemma_blank_line(line: Seq<char>)
    requires
        text::is_blank(line),
    ensures
        meaningful_lines(seq![line]) == Seq::<Seq<char>>::empty(),
{
    text::lemma_trimmed_end_of_padded(Seq::empty(), line);
    assert(Seq::<char>::empty() + line =~= line);
    reveal_with_fuel(meaningful_lines, 2);
    assert(seq![line].drop_last() =~= seq![]);
}

proof fn lemma_blank_text(blank: Seq<char>)
    requires
        text::is_blank(blank),
    ensures
        meaningful_lines(text::lines_of(blank)) == Seq::<Seq<char>>::empty(),
    decreases blank.len(),
{
    let n = text::first_index(blank, '\n') as int;
    text::lemma_first_index_is_first(blank, '\n');
    if blank.len() > 0 {
        if n < blank.len() {
            let line = text::without_carriage_return(blank.take(n));
            let rest = blank.skip(n + 1);
            assert forall|i: int| 0 <= i < line.len() implies text::is_white(
                #[trigger] line[i],
            ) by {
                assert(line[i] == blank[i]);
            }
            assert forall|i: int| 0 <= i < rest.len() implies text::is_white(
                #[trigger] rest[i],
            ) by {
                assert(rest[i] == blank[n + 1 + i]);
            }
            lemma_blank_line(line);
            lemma_blank_text(rest);
            lemma_meaningful_of_parts(seq![line], text::lines_of(rest));
        } else {
            lemma_blank_line(blank);
        }
    }
}

proof fn lemma_one_line(a: Seq<char>, b: Seq<char>)
    requires
        text::trimmed_end(a) == text::trimmed_end(b),
    ensures
        meaningful_lines(seq![a]) == meaningful_lines(seq![b]),
{
    assert(seq![a].drop_last() =~= seq![]);
    assert(seq![b].drop_last() =~= seq![]);
}

proof fn lemma_trimmed_without_carriage_return(line: Seq<char>)
    ensures
        text::trimmed_end(text::without_carriage_return(line)) == text::trimmed_end(line),
{
}

/// Padding before a line feed, with no line feed in it, carries no meaning.
proof fn lemma_padding_in_line(a: Seq<char>, pad: Seq<char>)
    requires
        text::is_blank(pad),
        forall|i: int| 0 <= i < pad.len() ==> pad[i] != '\n',
    ensures
        meaningful_lines(text::lines_of(a + pad + seq!['\n'])) == meaningful_lines(
            text::lines_of(a + seq!['\n']),
        ),
    decreases a.len(),
{
    let feed = seq!['\n'];
    let n = text::first_index(a, '\n') as int;
    text::lemma_first_index_is_first(a, '\n');
    let padded = a + pad + feed;
    let plain = a + feed;
    text::lemma_first_index(plain, '\n', n);
    assert(plain.take(n) =~= a.take(n));
    if n < a.len() {
        let rest = a.skip(n + 1);
        text::lemma_first_index(padded, '\n', n);
        assert(padded.take(n) =~= a.take(n));
        assert(padded.skip(n + 1) =~= rest + pad + feed);
        assert(plain.skip(n + 1) =~= rest + feed);
        lemma_padding_in_line(rest, pad);
        let line = text::without_carriage_return(a.take(n));
        lemma_meaningful_of_parts(seq![line], text::lines_of(rest + pad + feed));
        lemma_meaningful_of_parts(seq![line], text::lines_of(rest + feed));
    } else {
        let m = n + pad.len();
        assert forall|i: int| 0 <= i < m implies padded[i] != '\n' by {
            if i >= n {
                assert(padded[i] == pad[i - n]);
            }
        }
        text::lemma_first_index(padded, '\n', m);
        assert(padded.take(m) =~= a + pad);
        assert(padded.skip(m + 1) =~= seq![]);
        assert(plain.take(n) =~= a);
        assert(plain.skip(n + 1) =~= seq![]);
        let long = text::without_carriage_return(a + pad);
        let short = text::without_carriage_return(a);
        reveal_with_fuel(text::lines_of, 2);
        assert(text::lines_of(padded) =~= seq![long]);
        assert(text::lines_of(plain) =~= seq![short]);
        text::lemma_trimmed_end_of_padded(a, pad);
        lemma_trimmed_without_carriage_return(a + pad);
        lemma_trimmed_without_carriage_return(a);
        lemma_one_line(long, short);
    }
}

proof fn lemma_padding(a: Seq<char>, pad: Seq<char>)
    requires
        text::is_blank(pad),
    ensures
        meaningful_lines(text::lines_of(a + pad + seq!['\n'])) == meaningful_lines(
            text::lines_of(a + seq!['\n']),
        ),
{
    let feed = seq!['\n'];
    let n = text::first_index(pad, '\n') as int;
    text::lemma_first_index_is_first(pad, '\n');
    if n < pad.len() {
        let near = pad.take(n);
        let far = pad.skip(n + 1) + feed;
        assert forall|i: int| 0 <= i < far.len() implies text::is_white(#[trigger] far[i]) by {
            if i < pad.len() - n - 1 {
                assert(far[i] == pad[n + 1 + i]);
            }
        }
        assert(pad =~= near + feed + pad.skip(n + 1));
        assert(a + pad + feed =~= (a + near) + feed + far);
        text::lemma_lines_of_parts(a + near, far);
        lemma_meaningful_of_parts(
            text::lines_of(a + near + feed),
            text::lines_of(far),
        );
        lemma_blank_text(far);
        lemma_padding_in_line(a, near);
        assert(meaningful_lines(text::lines_of(a + near + feed)) + Seq::<Seq<char>>::empty()
            =~= meaningful_lines(text::lines_of(a + near + feed)));
    } else {
        lemma_padding_in_line(a, pad);
    }
}

/// A line feed at the end of a text carries no meaning.
proof fn lemma_final_line_feed(s: Seq<char>)
    ensures
        meaningful_lines(text::lines_of(s + seq!['\n'])) == meaningful_lines(text::lines_of(s)),
    decreases s.len(),
{
    let feed = seq!['\n'];
    let longer = s + feed;
    let n = text::first_index(s, '\n') as int;
    text::lemma_first_index_is_first(s, '\n');
    text::lemma_first_index(longer, '\n', n);
    assert(longer.take(n) =~= s.take(n));
    let line = text::without_carriage_return(s.take(n));
    if n < s.len() {
        let rest = s.skip(n + 1);
        assert(longer.skip(n + 1) =~= rest + feed);
        lemma_final_line_feed(rest);
        lemma_meaningful_of_parts(seq![line], text::lines_of(rest + feed));
        lemma_meaningful_of_parts(seq![line], text::lines_of(rest));
    } else {
        assert(s.take(n) =~= s);
        assert(longer.skip(n + 1) =~= seq![]);
        reveal_with_fuel(text::lines_of, 2);
        assert(text::lines_of(longer) =~= seq![line]);
        if s.len() == 0 {
            lemma_blank_line(line);
            assert(text::lines_of(s) =~= seq![]);
        } else {
            lemma_trimmed_without_carriage_return(s);
            lemma_one_line(line, s);
        }
    }
}

/// Whitespace at the end of a line carries no meaning, before a line feed or at the end of the
/// text.
pub proof fn law_padding_carries_no_meaning(a: Seq<char>, pad: Seq<char>, b: Seq<char>)
    requires
        text::is_blank(pad),
    ensures
        normalized(a + pad + seq!['\n'] + b) == normalized(a + seq!['\n'] + b),
        normalized(a + pad) == normalized(a),
{
    let feed = seq!['\n'];
    lemma_padding(a, pad);
    text::lemma_lines_of_parts(a + pad, b);
    text::lemma_lines_of_parts(a, b);
    lemma_meaningful_of_parts(text::lines_of(a + pad + feed), text::lines_of(b));
    lemma_meaningful_of_parts(text::lines_of(a + feed), text::lines_of(b));
    lemma_final_line_feed(a + pad);
    lemma_final_line_feed(a);
}

/// A blank line put in between two lines, or taken away there, carries no meaning.
pub proof fn law_blank_line_carries_no_meaning(a: Seq<char>, blank: Seq<char>, b: Seq<char>)
    requires
        text::is_blank(blank),
    ensures
        normalized(a + seq!['\n'] + blank + seq!['\n'] + b) == normalized(a + seq!['\n'] + b),
{
    let feed = seq!['\n'];
    let pad = feed + blank;
    assert(a + feed + blank + feed + b =~= a + pad + feed + b);
    assert forall|i: int| 0 <= i < pad.len() implies text::is_white(#[trigger] pad[i]) by {
        if i > 0 {
            assert(pad[i] == blank[i - 1]);
        }
    }
    law_padding_carries_no_meaning(a, pad, b);
}

/// Every line that is not blank carries meaning, all of it but the whitespace at its end, and no
/// other line does; what one line means depends on no other line.
pub proof fn law_meaning_line_by_line(
    a: Seq<Seq<char>>,
    line: Seq<char>,
    pad: Seq<char>,
    b: Seq<Seq<char>>,
)
    requires
        text::is_blank(pad),
        line.len() > 0 ==> !text::is_white(line.last()),
    ensures
        meaningful_lines(a + b) == meaningful_lines(a) + meaningful_lines(b),
        line.len() > 0 ==> meaningful_lines(seq![line + pad]) == seq![line],
        line.len() == 0 ==> meaningful_lines(seq![line + pad]) == Seq::<Seq<char>>::empty(),
        meaningful_lines(Seq::<Seq<char>>::empty()) == Seq::<Seq<char>>::empty(),
{
    lemma_meaningful_of_parts(a, b);
    text::lemma_trimmed_end_of_padded(line, pad);
    assert(seq![line + pad].drop_last() =~= seq![]);
    reveal_with_fuel(meaningful_lines, 2);
    if line.len() > 0 {
        assert(text::trimmed_end(line) == line);
        assert(meaningful_lines(seq![line + pad]) =~= seq![line]);
    }
}

/// A change of one line is seen if it is more than one of the whitespace at the end of the line.
pub proof fn law_change_of_a_line_is_seen(
    a: Seq<char>,
    old_line: Seq<char>,
    new_line: Seq<char>,
    b: Seq<char>,
)
    requires
        forall|i: int| 0 <= i < old_line.len() ==> old_line[i] != '\n',
        forall|i: int| 0 <= i < new_line.len() ==> new_line[i] != '\n',
        text::trimmed_end(old_line) != text::trimmed_end(new_line),
    ensures
        normalized(a + seq!['\n'] + old_line + seq!['\n'] + b) != normalized(
            a + seq!['\n'] + new_line + seq!['\n'] + b,
        ),
{
    let feed = seq!['\n'];
    let lead = meaningful_lines(text::lines_of(a + feed));
    let trail = meaningful_lines(text::lines_of(b));
    lemma_meaning_around(a, old_line, b);
    lemma_meaning_around(a, new_line, b);
    let x = text::trimmed_end(old_line);
    let y = text::trimmed_end(new_line);
    let before = a + feed + old_line + feed + b;
    let after = a + feed + new_line + feed + b;
    law_same_meaning(before, after);
    let old_meaning = meaningful_lines(text::lines_of(before));
    let new_meaning = meaningful_lines(text::lines_of(after));
    if old_meaning == new_meaning {
        if x.len() > 0 && y.len() > 0 {
            assert(old_meaning[lead.len() as int] == x);
            assert(new_meaning[lead.len() as int] == y);
        } else if x.len() == 0 && y.len() == 0 {
            assert(x =~= y);
        } else {
            assert(old_meaning.len() != new_meaning.len());
        }
    }
}

proof fn lemma_meaning_around(a: Seq<char>, line: Seq<char>, b: Seq<char>)
    requires
        forall|i: int| 0 <= i < line.len() ==> line[i] != '\n',
    ensures
        meaningful_lines(text::lines_of(a + seq!['\n'] + line + seq!['\n'] + b))
            == meaningful_lines(text::lines_of(a + seq!['\n'])) + (if text::trimmed_end(line).len()
            > 0 {
            seq![text::trimmed_end(line)]
        } else {
            seq![]
        }) + meaningful_lines(text::lines_of(b)),
{
    let feed = seq!['\n'];
    let rest = line + feed + b;
    assert(a + feed + line + feed + b =~= a + feed + rest);
    text::lemma_lines_of_parts(a, rest);
    lemma_meaningful_of_parts(text::lines_of(a + feed), text::lines_of(rest));
    text::law_lines(line, b);
    let shown = text::without_carriage_return(line);
    if line.len() > 0 {
        assert(line.drop_last() =~= line.take(line.len() - 1));
    }
    lemma_meaningful_of_parts(seq![shown], text::lines_of(b));
    lemma_trimmed_without_carriage_return(line);
    lemma_one_line(shown, line);
    reveal_with_fuel(meaningful_lines, 2);
    assert(seq![line].drop_last() =~= seq![]);
    let own: Seq<Seq<char>> = if text::trimmed_end(line).len() > 0 {
        seq![text::trimmed_end(line)]
    } else {
        seq![]
    };
    assert(meaningful_lines(seq![line]) =~= own);
    let lead = meaningful_lines(text::lines_of(a + feed));
    let trail = meaningful_lines(text::lines_of(b));
    assert(lead + (own + trail) =~= lead + own + trail);
}

} // verus!
