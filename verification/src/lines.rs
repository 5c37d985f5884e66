//! Lines, padding and byte lengths of texts.

use vstd::prelude::*;
use vstd::string::*;

use crate::text;

verus! {

/// The length of the text up to its first line feed; its whole length where it has none.
pub open spec fn line_len(s: Seq<char>) -> nat
    decreases s.len(),
{
    if s.len() == 0 || s[0] == '\n' {
        0
    } else {
        1 + line_len(s.drop_first())
    }
}

proof fn lemma_line_len(s: Seq<char>)
    ensures
        line_len(s) <= s.len(),
        line_len(s) < s.len() ==> s[line_len(s) as int] == '\n',
    decreases s.len(),
{
    if s.len() > 0 && s[0] != '\n' {
        lemma_line_len(s.drop_first());
    }
}

/// A line without the carriage return at its end.
pub open spec fn without_return(line: Seq<char>) -> Seq<char> {
    if line.len() > 0 && line.last() == '\r' {
        line.drop_last()
    } else {
        line
    }
}

/// The lines of a text. A line ends with a line feed, or with a carriage return and a line feed; the
/// last one may lack it.
pub open spec fn lines_of(s: Seq<char>) -> Seq<Seq<char>>
    decreases s.len(),
{
    if s.len() == 0 {
        Seq::empty()
    } else {
        let n = line_len(s);
        if n >= s.len() {
            seq![s]
        } else {
            seq![without_return(s.take(n as int))] + lines_of(s.skip(n as int + 1))
        }
    }
}

pub fn split_lines(contents: &str) -> (r: Vec<String>)
    ensures
        text::texts(r@) == lines_of(contents@),
{
    let s = text::chars_of(contents);
    let mut r: Vec<String> = Vec::new();
    let mut start: usize = 0;
    assert(s@.skip(0) =~= s@);
    assert(text::texts(r@) + lines_of(s@) =~= lines_of(s@));
    while start < s.len()
        invariant
            start <= s@.len(),
            s@ == contents@,
            text::texts(r@) + lines_of(s@.skip(start as int)) == lines_of(contents@),
        decreases s@.len() - start,
    {
        let ghost rest = s@.skip(start as int);
        let ghost before = text::texts(r@);
        proof {
            lemma_line_len(rest);
        }
        let mut end: usize = start;
        assert(s@.skip(end as int) =~= rest);
        while end < s.len() && s[end] != '\n'
            invariant
                start <= end <= s@.len(),
                rest == s@.skip(start as int),
                line_len(rest) == (end - start) + line_len(s@.skip(end as int)),
            decreases s@.len() - end,
        {
            assert(s@.skip(end as int).drop_first() =~= s@.skip(end + 1));
            end += 1;
        }
        assert(line_len(rest) == end - start);
        if end >= s.len() {
            let line = text::string_of(&s, start, end);
            assert(line@ =~= rest);
            r.push(line);
            assert(text::texts(r@) =~= before.push(rest));
            assert(lines_of(rest) =~= seq![rest]);
            start = end;
            assert(s@.skip(start as int) =~= Seq::<char>::empty());
            assert(text::texts(r@) + lines_of(s@.skip(start as int)) =~= before + seq![rest]);
        } else {
            let stop: usize = if end > start && s[end - 1] == '\r' {
                end - 1
            } else {
                end
            };
            let line = text::string_of(&s, start, stop);
            proof {
                let head = rest.take(end - start);
                assert(head =~= s@.subrange(start as int, end as int));
                assert(line@ =~= without_return(head));
            }
            r.push(line);
            assert(text::texts(r@) =~= before.push(line@));
            let ghost tail = rest.skip(line_len(rest) as int + 1);
            assert(s@.skip(end + 1) =~= tail);
            start = end + 1;
            assert(lines_of(rest) == seq![line@] + lines_of(tail));
            assert(before.push(line@) + lines_of(tail) =~= before + (seq![line@] + lines_of(tail)));
        }
    }
    assert(s@.skip(start as int) =~= Seq::<char>::empty());
    assert(text::texts(r@) + lines_of(s@.skip(start as int)) =~= text::texts(r@));
    r
}

/// How many bytes a character takes in UTF-8.
pub open spec fn char_bytes(c: char) -> nat {
    let p = c as u32;
    if p < 0x80 {
        1
    } else if p < 0x800 {
        2
    } else if p < 0x1_0000 {
        3
    } else {
        4
    }
}

/// How many bytes a text takes in UTF-8.
pub open spec fn byte_len(s: Seq<char>) -> nat
    decreases s.len(),
{
    if s.len() == 0 {
        0
    } else {
        byte_len(s.drop_last()) + char_bytes(s.last())
    }
}

/// The length of a text in bytes.
pub fn byte_length(text: &str) -> (r: u128)
    ensures
        r == byte_len(text@),
{
    let s = text::chars_of(text);
    let mut r: u128 = 0;
    let mut i: usize = 0;
    while i < s.len()
        invariant
            i <= s@.len(),
            s@ == text@,
            r == byte_len(s@.take(i as int)),
            r <= 4 * i,
        decreases s@.len() - i,
    {
        let p: u32 = s[i] as u32;
        let n: u128 = if p < 0x80 {
            1
        } else if p < 0x800 {
            2
        } else if p < 0x1_0000 {
            3
        } else {
            4
        };
        assert(s@.take(i + 1).drop_last() =~= s@.take(i as int));
        assert(s@.take(i + 1).last() == s@[i as int]);
        r = r + n;
        i += 1;
    }
    assert(s@.take(i as int) =~= s@);
    r
}

/// `s` with spaces in front, up to `width` characters.
pub open spec fn right_aligned(s: Seq<char>, width: nat) -> Seq<char> {
    Seq::new((if s.len() < width { width - s.len() } else { 0 }) as nat, |i: int| ' ') + s
}

pub fn align_right(s: &str, width: usize) -> (r: String)
    ensures
        r@ == right_aligned(s@, width as nat),
{
    let len: usize = text::chars_of(s).len();
    let mut r = String::new();
    let mut k: usize = len;
    while k < width
        invariant
            len == s@.len(),
            len <= k,
            k <= width || k == len,
            r@ == Seq::new((k - len) as nat, |i: int| ' '),
        decreases width - k,
    {
        r.push(' ');
        k += 1;
        assert(r@ =~= Seq::new((k - len) as nat, |i: int| ' '));
    }
    r.append(s);
    r
}

/// `s` with spaces behind, up to `width` characters.
pub open spec fn left_aligned(s: Seq<char>, width: nat) -> Seq<char> {
    s + Seq::new((if s.len() < width { width - s.len() } else { 0 }) as nat, |i: int| ' ')
}

pub fn align_left(s: &str, width: usize) -> (r: String)
    ensures
        r@ == left_aligned(s@, width as nat),
{
    let len: usize = text::chars_of(s).len();
    let mut r = s.to_owned();
    let mut k: usize = len;
    while k < width
        invariant
            len == s@.len(),
            len <= k,
            k <= width || k == len,
            r@ == s@ + Seq::new((k - len) as nat, |i: int| ' '),
        decreases width - k,
    {
        r.push(' ');
        k += 1;
        assert(r@ =~= s@ + Seq::new((k - len) as nat, |i: int| ' '));
    }
    assert(r@ =~= left_aligned(s@, width as nat));
    r
}


/// A whole number, with a minus sign where it is negative.
pub open spec fn integer(n: int) -> Seq<char> {
    if n < 0 {
        "-"@ + text::decimal((-n) as nat)
    } else {
        text::decimal(n as nat)
    }
}

pub fn integer_text(n: i32) -> (r: String)
    ensures
        r@ == integer(n as int),
{
    if n < 0 {
        text::cat2("-", text::decimal_text((-(n as i64)) as u64).as_str())
    } else {
        text::decimal_text(n as u64)
    }
}

/// The lines, each with a line feed at its end.
pub open spec fn with_line_feeds(all: Seq<Seq<char>>) -> Seq<char>
    decreases all.len(),
{
    if all.len() == 0 {
        Seq::empty()
    } else {
        with_line_feeds(all.drop_last()) + all.last() + "\n"@
    }
}

pub fn join_lines(all: &Vec<String>) -> (r: String)
    ensures
        r@ == with_line_feeds(text::texts(all@)),
{
    let ghost texts = text::texts(all@);
    let mut r = String::new();
    let mut i: usize = 0;
    assert(r@ =~= with_line_feeds(texts.take(0)));
    while i < all.len()
        invariant
            i <= all@.len(),
            texts == text::texts(all@),
            r@ == with_line_feeds(texts.take(i as int)),
        decreases all@.len() - i,
    {
        assert(texts.take(i + 1).drop_last() =~= texts.take(i as int));
        assert(texts.take(i + 1).last() == all@[i as int]@);
        r.append(all[i].as_str());
        r.append("\n");
        i += 1;
    }
    assert(texts.take(i as int) =~= texts);
    r
}

/// A text is its first line and the lines of what follows the line feed; the carriage return before
/// the line feed is no part of the line.
pub proof fn law_lines_are_parted_by_line_feeds(line: Seq<char>, rest: Seq<char>)
    requires
        forall|i: int| 0 <= i < line.len() ==> #[trigger] line[i] != '\n',
    ensures
        lines_of(line + seq!['\n'] + rest) == seq![
            if line.len() > 0 && line.last() == '\r' {
                line.drop_last()
            } else {
                line
            },
        ] + lines_of(rest),
        line.len() > 0 ==> lines_of(line) == seq![line],
        lines_of(Seq::<char>::empty()) == Seq::<Seq<char>>::empty(),
{
    let all = line + seq!['\n'] + rest;
    lemma_line_len_is(line, seq!['\n'] + rest);
    assert(all =~= line + (seq!['\n'] + rest));
    assert(all.take(line.len() as int) =~= line);
    assert(all.skip(line.len() as int + 1) =~= rest);
    lemma_line_len_is(line, Seq::empty());
    assert(line + Seq::<char>::empty() =~= line);
}

proof fn lemma_line_len_is(line: Seq<char>, rest: Seq<char>)
    requires
        forall|i: int| 0 <= i < line.len() ==> #[trigger] line[i] != '\n',
        rest.len() > 0 ==> rest[0] == '\n',
    ensures
        line_len(line + rest) == line.len(),
    decreases line.len(),
{
    let all = line + rest;
    if line.len() > 0 {
        assert(all[0] == line[0]);
        assert(all.drop_first() =~= line.drop_first() + rest);
        assert forall|i: int| 0 <= i < line.drop_first().len() implies #[trigger] line.drop_first()[i]
            != '\n' by {
            assert(line.drop_first()[i] == line[i + 1]);
        }
        lemma_line_len_is(line.drop_first(), rest);
    } else {
        assert(all =~= rest);
    }
}

/// Alignment fills up with spaces to the width, on the left or on the right, and cuts nothing off.
pub proof fn law_alignment_fills_up(s: Seq<char>, width: nat)
    ensures
        right_aligned(s, width).len() == left_aligned(s, width).len(),
        right_aligned(s, width).len() == (if s.len() < width {
            width
        } else {
            s.len()
        }),
        left_aligned(s, width).take(s.len() as int) == s,
        right_aligned(s, width).skip(right_aligned(s, width).len() - s.len()) == s,
        forall|i: int|
            s.len() <= i < left_aligned(s, width).len() ==> #[trigger] left_aligned(s, width)[i]
                == ' ',
        forall|i: int|
            0 <= i < right_aligned(s, width).len() - s.len() ==> #[trigger] right_aligned(
                s,
                width,
            )[i] == ' ',
{
    assert(left_aligned(s, width).take(s.len() as int) =~= s);
    assert(right_aligned(s, width).skip(right_aligned(s, width).len() - s.len()) =~= s);
}

/// Lengths in bytes add up, and a text of ASCII letters has as many bytes as letters.
pub proof fn law_byte_lengths_add_up(a: Seq<char>, b: Seq<char>)
    ensures
        byte_len(a + b) == byte_len(a) + byte_len(b),
        text::all_ascii(b) ==> byte_len(b) == b.len(),
        byte_len(b) >= b.len(),
    decreases b.len(),
{
    if b.len() > 0 {
        law_byte_lengths_add_up(a, b.drop_last());
        assert((a + b).drop_last() =~= a + b.drop_last());
        if text::all_ascii(b) {
            assert(text::all_ascii(b.drop_last())) by {
                assert forall|i: int| 0 <= i < b.drop_last().len() implies (
                #[trigger] b.drop_last()[i] as u32) < 128 by {
                    assert(b.drop_last()[i] == b[i]);
                }
            }
            assert((b[b.len() - 1] as u32) < 128);
        }
    } else {
        assert(a + b =~= a);
    }
}

/// A character takes as many bytes as UTF-8 needs for it: one carries seven bits, two carry eleven,
/// three carry sixteen, and four the rest.
pub proof fn law_bytes_of_a_character(c: char)
    ensures
        byte_len(seq![c]) == (if (c as u32) < 128 {
            1int
        } else if (c as u32) < 2_048 {
            2
        } else if (c as u32) < 65_536 {
            3
        } else {
            4
        }),
{
    assert(seq![c].drop_last() =~= Seq::<char>::empty());
    assert(byte_len(Seq::<char>::empty()) == 0);
}

} // verus!
