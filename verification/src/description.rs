//! The text form of a map: a line that holds the width, a line that holds
//! the height, then the rows of the grid, one line each.

use vstd::prelude::*;

verus! {

/// Whether `c` has Unicode's `White_Space` property.
pub open spec fn white_space(c: char) -> bool {
    let n = c as u32;
    ||| 0x09 <= n <= 0x0D
    ||| n == 0x20
    ||| n == 0x85
    ||| n == 0xA0
    ||| n == 0x1680
    ||| 0x2000 <= n <= 0x200A
    ||| n == 0x2028
    ||| n == 0x2029
    ||| n == 0x202F
    ||| n == 0x205F
    ||| n == 0x3000
}

/// The characters of a header line that count: all but white space.
pub open spec fn solid() -> spec_fn(char) -> bool {
    |c: char| !white_space(c)
}

/// Whether `c` is one of `0` to `9`.
pub open spec fn is_digit(c: char) -> bool {
    0x30 <= c as u32 <= 0x39
}

/// What a digit stands for; 0 for any other character.
pub open spec fn digit_value(c: char) -> nat {
    if is_digit(c) {
        (c as u32 - 0x30) as nat
    } else {
        0
    }
}

/// The number that a run of digits writes in base ten.
pub open spec fn decimal_value(digits: Seq<char>) -> nat
    decreases digits.len(),
{
    if digits.len() == 0 {
        0
    } else {
        decimal_value(digits.drop_last()) * 10 + digit_value(digits.last())
    }
}

/// Whether every character of `s` is a digit.
pub open spec fn all_digits(s: Seq<char>) -> bool {
    forall|i: int| 0 <= i < s.len() ==> is_digit(#[trigger] s[i])
}

/// `s` without the plus sign that may lead it.
pub open spec fn unsigned_part(s: Seq<char>) -> Seq<char> {
    if s.len() > 0 && s[0] == '+' {
        s.skip(1)
    } else {
        s
    }
}

/// The number that a header line holds. White space anywhere in the line is
/// passed over; what is left must be one or more digits, with or without a
/// plus sign before them.
pub open spec fn number(line: Seq<char>) -> Option<nat> {
    let digits = unsigned_part(line.filter(solid()));
    if digits.len() > 0 && all_digits(digits) {
        Some(decimal_value(digits))
    } else {
        None
    }
}

/// The size that a header line holds: its number, where a `usize` can hold
/// it.
pub open spec fn size(line: Seq<char>) -> Option<usize> {
    match number(line) {
        Some(n) => if n <= usize::MAX {
            Some(n as usize)
        } else {
            None
        },
        None => None,
    }
}

/// Where the line that starts at `from` ends: the place of the next line
/// break, or the end of the text.
pub open spec fn line_end(text: Seq<char>, from: int) -> int
    decreases text.len() - from,
{
    if from >= text.len() {
        text.len() as int
    } else if text[from] == '\n' {
        from
    } else {
        line_end(text, from + 1)
    }
}

/// Where the line after the one that starts at `from` begins.
pub open spec fn line_after(text: Seq<char>, from: int) -> int {
    let end = line_end(text, from);
    if end < text.len() {
        end + 1
    } else {
        end
    }
}

/// The first line of a description, which holds the width.
pub open spec fn width_line(text: Seq<char>) -> Seq<char> {
    text.subrange(0, line_end(text, 0))
}

/// The second line of a description, which holds the height.
pub open spec fn height_line(text: Seq<char>) -> Seq<char> {
    text.subrange(line_after(text, 0), line_end(text, line_after(text, 0)))
}

/// What follows the two header lines: the rows of the grid.
pub open spec fn grid_rows(text: Seq<char>) -> Seq<char> {
    text.skip(line_after(text, line_after(text, 0)))
}

/// The row that the character at place `p` of `rows` stands in: the number
/// of line breaks before it.
pub open spec fn row_at(rows: Seq<char>, p: int) -> nat
    decreases p,
{
    if p <= 0 {
        0
    } else if rows[p - 1] == '\n' {
        row_at(rows, p - 1) + 1
    } else {
        row_at(rows, p - 1)
    }
}

/// The column that the character at place `p` of `rows` stands in: the
/// number of characters between it and the start of its line.
pub open spec fn column_at(rows: Seq<char>, p: int) -> nat
    decreases p,
{
    if p <= 0 {
        0
    } else if rows[p - 1] == '\n' {
        0
    } else {
        column_at(rows, p - 1) + 1
    }
}

/// Whether the character at place `p` of `rows` ends a line rather than
/// stands in one: a line break, or a carriage return right before one.
pub open spec fn ends_line(rows: Seq<char>, p: int) -> bool {
    rows[p] == '\n' || (rows[p] == '\r' && p + 1 < rows.len() && rows[p + 1] == '\n')
}

/// Whether the character at place `p` of `rows` stands in a row and is
/// neither of the two that a row is written with.
pub open spec fn is_unrecognised(rows: Seq<char>, p: int) -> bool {
    !ends_line(rows, p) && rows[p] != '#' && rows[p] != '_'
}

/// The unrecognised characters among the first `upto` of `rows`, in their
/// order.
pub open spec fn unrecognised(rows: Seq<char>, upto: int) -> Seq<char>
    decreases upto,
{
    if upto <= 0 {
        Seq::empty()
    } else if is_unrecognised(rows, upto - 1) {
        unrecognised(rows, upto - 1).push(rows[upto - 1])
    } else {
        unrecognised(rows, upto - 1)
    }
}

/// A run of digits is worth at least as much as any run it starts with.
pub proof fn lemma_decimal_value_grows(digits: Seq<char>, n: int)
    requires
        0 <= n <= digits.len(),
    ensures
        decimal_value(digits.take(n)) <= decimal_value(digits),
    decreases digits.len() - n,
{
    if n == digits.len() {
        assert(digits.take(n) =~= digits);
    } else {
        lemma_decimal_value_grows(digits, n + 1);
        assert(digits.take(n + 1).drop_last() =~= digits.take(n));
    }
}

/// Whether `c` has Unicode's `White_Space` property.
pub fn is_white_space(c: char) -> (yes: bool)
    ensures
        yes == white_space(c),
{
    let n: u32 = c as u32;
    (0x09 <= n && n <= 0x0D) || n == 0x20 || n == 0x85 || n == 0xA0 || n == 0x1680 || (0x2000 <= n
        && n <= 0x200A) || n == 0x2028 || n == 0x2029 || n == 0x202F || n == 0x205F || n == 0x3000
}

/// Reads the size that a header line holds. `None` where the line holds no
/// number, or one too large for a `usize`.
pub fn parse_size(line: &[char]) -> (parsed: Option<usize>)
    ensures
        parsed == size(line@),
{
    let mut kept: Vec<char> = Vec::new();
    proof {
        line@.take(0).lemma_filter_len(solid());
    }
    for i in 0..line.len()
        invariant
            kept@ == line@.take(i as int).filter(solid()),
    {
        proof {
            assert(line@.take(i + 1) =~= line@.take(i as int).push(line@[i as int]));
            line@.take(i as int).lemma_filter_push(line@[i as int], solid());
        }
        let c: char = line[i];
        if !is_white_space(c) {
            kept.push(c);
        }
    }
    assert(line@.take(line.len() as int) =~= line@);
    let start: usize = if kept.len() > 0 && kept[0] == '+' {
        1
    } else {
        0
    };
    let ghost digits = unsigned_part(kept@);
    assert(digits =~= kept@.skip(start as int));
    if start == kept.len() {
        return None;
    }
    let mut value: usize = 0;
    for i in start..kept.len()
        invariant
            start < kept.len(),
            digits == kept@.skip(start as int),
            digits == unsigned_part(line@.filter(solid())),
            all_digits(digits.take(i - start)),
            value == decimal_value(digits.take(i - start)),
    {
        let n: u32 = kept[i] as u32;
        if n < 0x30 || n > 0x39 {
            assert(!is_digit(digits[i - start]));
            return None;
        }
        let digit: usize = (n - 0x30) as usize;
        proof {
            assert(digits.take(i + 1 - start).drop_last() =~= digits.take(i - start));
            assert(digits.take(i + 1 - start).last() == kept@[i as int]);
            lemma_decimal_value_grows(digits, i + 1 - start);
        }
        let tens: usize = match value.checked_mul(10) {
            Some(t) => t,
            None => {
                return None;
            },
        };
        value = match tens.checked_add(digit) {
            Some(v) => v,
            None => {
                return None;
            },
        };
    }
    assert(digits.take(kept.len() - start) =~= digits);
    Some(value)
}

/// Finds where the line that starts at `from` ends.
pub fn find_line_end(text: &Vec<char>, from: usize) -> (end: usize)
    ensures
        end == line_end(text@, from as int),
        from <= text.len() ==> from <= end <= text.len(),
{
    let n: usize = text.len();
    if from >= n {
        return n;
    }
    let mut i: usize = from;
    while i < n && text[i] != '\n'
        invariant
            from <= i <= n == text.len(),
            line_end(text@, from as int) == line_end(text@, i as int),
        decreases n - i,
    {
        i += 1;
    }
    i
}

/// The characters of `text`, one by one.
pub fn characters(text: &str) -> (chars: Vec<char>)
    ensures
        chars@ == text@,
{
    let mut chars: Vec<char> = Vec::new();
    for c in it: text.chars()
        invariant
            it.seq() == text@,
            chars@ == text@.take(it.index()),
    {
        chars.push(c);
    }
    chars
}

/// Lists the characters in the rows of a description that are neither `#`
/// nor `_`. The map has floor where they stand.
pub fn unrecognised_tiles(text: &str) -> (found: Vec<char>)
    ensures
        found@ == unrecognised(grid_rows(text@), grid_rows(text@).len() as int),
{
    let chars = characters(text);
    let n: usize = chars.len();
    let width_end: usize = find_line_end(&chars, 0);
    let height_start: usize = if width_end < n {
        width_end + 1
    } else {
        width_end
    };
    let height_end: usize = find_line_end(&chars, height_start);
    let rows_start: usize = if height_end < n {
        height_end + 1
    } else {
        height_end
    };
    let ghost rows = grid_rows(text@);
    assert(rows =~= chars@.skip(rows_start as int));
    let mut found: Vec<char> = Vec::new();
    let mut p: usize = rows_start;
    while p < n
        invariant
            rows_start <= p <= n == chars.len(),
            rows == chars@.skip(rows_start as int),
            found@ == unrecognised(rows, p - rows_start),
        decreases n - p,
    {
        let c: char = chars[p];
        assert(rows[p - rows_start] == c);
        let ends: bool = c == '\n' || (c == '\r' && p + 1 < n && chars[p + 1] == '\n');
        assert(p + 1 < n ==> rows[p + 1 - rows_start] == chars@[p + 1]);
        if !ends && c != '#' && c != '_' {
            found.push(c);
        }
        p += 1;
    }
    found
}

} // verus!
