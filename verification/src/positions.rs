//! Conversion of byte offsets into zero-based line/column positions.

use vstd::prelude::*;
use crate::text::chars_of;

verus! {

/// Number of bytes of a character in UTF-8.
pub open spec fn utf8_width(c: char) -> int {
    if (c as u32) < 0x80 {
        1
    } else if (c as u32) < 0x800 {
        2
    } else if (c as u32) < 0x10000 {
        3
    } else {
        4
    }
}

/// Walks the characters of `cs`: the byte index after them, and the line
/// and column reached by counting the characters that start before byte
/// `offset` (a newline starts a new line at column 0; any other character
/// advances the column by one).
pub open spec fn scan(cs: Seq<char>, offset: int) -> (int, int, int)
    decreases cs.len(),
{
    if cs.len() == 0 {
        (0, 0, 0)
    } else {
        let (b, l, c) = scan(cs.drop_last(), offset);
        let w = utf8_width(cs.last());
        if b >= offset {
            (b + w, l, c)
        } else if cs.last() == '\n' {
            (b + w, l + 1, 0)
        } else {
            (b + w, l, c + 1)
        }
    }
}

/// The zero-based line and column of byte `offset` in the text `cs`.
pub open spec fn line_col(cs: Seq<char>, offset: int) -> (int, int) {
    let (_, l, c) = scan(cs, offset);
    (l, c)
}

proof fn lemma_scan_bounds(cs: Seq<char>, offset: int)
    requires
        offset >= 0,
    ensures
        scan(cs, offset).0 >= 0,
        scan(cs, offset).1 >= 0,
        scan(cs, offset).2 >= 0,
        scan(cs, offset).1 + scan(cs, offset).2 <= if scan(cs, offset).0 < offset { scan(cs, offset).0 } else { offset },
    decreases cs.len(),
{
    if cs.len() > 0 {
        lemma_scan_bounds(cs.drop_last(), offset);
    }
}

proof fn lemma_scan_stays(cs: Seq<char>, offset: int, n: int)
    requires
        0 <= n <= cs.len(),
        scan(cs.take(n), offset).0 >= offset,
    ensures
        line_col(cs, offset) == line_col(cs.take(n), offset),
        scan(cs, offset).0 >= offset,
    decreases cs.len() - n,
{
    if n < cs.len() {
        assert(cs.take(n + 1).drop_last() =~= cs.take(n));
        lemma_scan_stays(cs, offset, n + 1);
    } else {
        assert(cs.take(n) =~= cs);
    }
}

fn char_width(c: char) -> (w: u64)
    ensures
        w == utf8_width(c),
{
    let u = c as u32;
    if u < 0x80 {
        1
    } else if u < 0x800 {
        2
    } else if u < 0x10000 {
        3
    } else {
        4
    }
}

/// Line and column (zero-based, columns counted in characters) of the byte
/// offset `offset` in `content`.
pub fn offset_to_line_col(content: &str, offset: u32) -> (r: (u32, u32))
    ensures
        r.0 == line_col(content@, offset as int).0,
        r.1 == line_col(content@, offset as int).1,
{
    let cs = chars_of(content);
    let mut b: u64 = 0;
    let mut line: u32 = 0;
    let mut col: u32 = 0;
    let mut i: usize = 0;
    let ghost off = offset as int;
    assert(cs@.take(0) =~= Seq::<char>::empty());
    while i < cs.len()
        invariant
            i <= cs@.len(),
            cs@ == content@,
            off == offset as int,
            scan(cs@.take(i as int), off) == (b as int, line as int, col as int),
            line + col <= (if (b as int) < off { b as int } else { off }),
            b <= u32::MAX as int + 4,
        decreases cs@.len() - i,
    {
        if b >= offset as u64 {
            proof {
                lemma_scan_stays(cs@, off, i as int);
            }
            return (line, col);
        }
        let c = cs[i];
        let w = char_width(c);
        assert(cs@.take(i + 1).drop_last() =~= cs@.take(i as int));
        assert(cs@.take(i + 1).last() == c);
        if c == '\n' {
            line = line + 1;
            col = 0;
        } else {
            col = col + 1;
        }
        b = b + w;
        i = i + 1;
    }
    assert(cs@.take(cs@.len() as int) =~= cs@);
    (line, col)
}

/// A zero-based position.
#[derive(PartialEq, Eq, Structural, Clone, Copy, Debug)]
pub struct PositionOut {
    pub line: u32,
    pub col: u32,
}

/// A range of positions.
#[derive(PartialEq, Eq, Structural, Clone, Copy, Debug)]
pub struct RangeOut {
    pub start: PositionOut,
    pub end: PositionOut,
}

/// The position of byte `offset` in `cs`.
pub open spec fn position_of(cs: Seq<char>, offset: int) -> PositionOut {
    PositionOut { line: line_col(cs, offset).0 as u32, col: line_col(cs, offset).1 as u32 }
}

/// Positions of both ends of the byte range `start..end` in `content`.
pub fn build_range(content: &str, start: u32, end: u32) -> (r: RangeOut)
    ensures
        r.start == position_of(content@, start as int),
        r.end == position_of(content@, end as int),
{
    let (start_line, start_col) = offset_to_line_col(content, start);
    let (end_line, end_col) = offset_to_line_col(content, end);
    RangeOut {
        start: PositionOut { line: start_line, col: start_col },
        end: PositionOut { line: end_line, col: end_col },
    }
}

proof fn lemma_scan_monotone(cs: Seq<char>, a: int, b: int)
    requires
        a <= b,
    ensures
        scan(cs, a).0 == scan(cs, b).0,
        scan(cs, a).1 <= scan(cs, b).1,
    decreases cs.len(),
{
    if cs.len() > 0 {
        lemma_scan_monotone(cs.drop_last(), a, b);
    }
}

/// Lines never decrease with the offset: a later offset of a text is on the
/// same line or a later one.
pub proof fn lemma_line_monotone(cs: Seq<char>, a: int, b: int)
    requires
        0 <= a <= b <= u32::MAX,
    ensures
        position_of(cs, a).line <= position_of(cs, b).line,
{
    lemma_scan_monotone(cs, a, b);
    lemma_scan_bounds(cs, a);
    lemma_scan_bounds(cs, b);
}

} // verus!
