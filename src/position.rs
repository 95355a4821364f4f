//! Positions in a source: line and column of a byte offset, and the lines
//! around a match.

use vstd::prelude::*;

verus! {

/// A byte that starts a character (no UTF-8 continuation byte).
pub open spec fn starts_char(b: u8) -> bool {
    b < 0x80 || b >= 0xC0
}

/// How many newline bytes stand before `end`.
pub open spec fn newlines_before(b: Seq<u8>, end: int) -> nat
    decreases end,
{
    if end <= 0 || end > b.len() {
        0
    } else {
        newlines_before(b, end - 1) + if b[end - 1] == 10u8 { 1nat } else { 0nat }
    }
}

/// How many characters start in `from..to`.
pub open spec fn chars_between(b: Seq<u8>, from: int, to: int) -> nat
    decreases to - from,
{
    if to <= from || to > b.len() || from < 0 {
        0
    } else {
        chars_between(b, from, to - 1) + if starts_char(b[to - 1]) { 1nat } else { 0nat }
    }
}

/// Where the line holding `off` starts.
pub open spec fn line_start(b: Seq<u8>, off: int) -> int
    decreases off,
{
    if off <= 0 || off > b.len() {
        0
    } else if b[off - 1] == 10u8 {
        off
    } else {
        line_start(b, off - 1)
    }
}

/// Scanning back from `pos`, where the `k`-th newline is passed: just after
/// it, or the start of the source.
pub open spec fn back_to_line(b: Seq<u8>, pos: int, k: nat) -> int
    decreases pos,
{
    if pos <= 0 || pos > b.len() {
        0
    } else if b[pos - 1] == 10u8 && k <= 1 {
        pos
    } else if b[pos - 1] == 10u8 {
        back_to_line(b, pos - 1, (k - 1) as nat)
    } else {
        back_to_line(b, pos - 1, k)
    }
}

/// Scanning forward from `pos`, where the `k`-th newline is met: at it, or
/// the end of the source.
pub open spec fn forward_to_line(b: Seq<u8>, pos: int, k: nat) -> int
    decreases b.len() - pos,
{
    if pos >= b.len() || pos < 0 {
        b.len() as int
    } else if b[pos] == 10u8 && k <= 1 {
        pos
    } else if b[pos] == 10u8 {
        forward_to_line(b, pos + 1, (k - 1) as nat)
    } else {
        forward_to_line(b, pos + 1, k)
    }
}

/// The zero-based line of byte offset `off`, and its column in characters.
pub fn position(b: &Vec<u8>, off: usize) -> (r: (usize, usize))
    requires
        off <= b@.len(),
    ensures
        r.0 == newlines_before(b@, off as int),
        r.1 == chars_between(b@, line_start(b@, off as int), off as int),
{
    let mut line: usize = 0;
    let mut i: usize = 0;
    while i < off
        invariant
            off <= b@.len(),
            i <= off,
            line == newlines_before(b@, i as int),
            line <= i,
        decreases off - i,
    {
        if b[i] == 10u8 {
            line = line + 1;
        }
        i = i + 1;
    }
    let mut start: usize = off;
    while start > 0 && b[start - 1] != 10u8
        invariant
            start <= off <= b@.len(),
            line_start(b@, off as int) == line_start(b@, start as int),
        decreases start,
    {
        start = start - 1;
    }
    let mut col: usize = 0;
    let mut j: usize = start;
    while j < off
        invariant
            start <= j <= off <= b@.len(),
            col == chars_between(b@, start as int, j as int),
            col <= j - start,
        decreases off - j,
    {
        if b[j] < 0x80u8 || b[j] >= 0xC0u8 {
            col = col + 1;
        }
        j = j + 1;
    }
    (line, col)
}

/// The byte range of a match's lines: from the start of the line `before`
/// lines above the match's first line, to the end of the line `after` lines
/// below its last one (newlines excluded).
pub fn context_bounds(b: &Vec<u8>, start: usize, end: usize, before: usize, after: usize) -> (r: (usize, usize))
    requires
        start <= b@.len(),
        before < usize::MAX,
        after < usize::MAX,
    ensures
        r.0 == back_to_line(b@, start as int, (before + 1) as nat),
        r.1 == forward_to_line(b@, if end <= b@.len() { end as int } else { b@.len() as int }, (after + 1) as nat),
        r.0 <= start,
{
    let mut leading: usize = start;
    let mut k: usize = before + 1;
    while leading > 0 && !(b[leading - 1] == 10u8 && k <= 1)
        invariant
            leading <= start <= b@.len(),
            k >= 1,
            back_to_line(b@, start as int, (before + 1) as nat) == back_to_line(b@, leading as int, k as nat),
        decreases leading,
    {
        if b[leading - 1] == 10u8 {
            k = k - 1;
        }
        leading = leading - 1;
    }
    let mut trailing: usize = if end <= b.len() { end } else { b.len() };
    let mut k: usize = after + 1;
    while trailing < b.len() && !(b[trailing] == 10u8 && k <= 1)
        invariant
            trailing <= b@.len(),
            k >= 1,
            forward_to_line(b@, if end <= b@.len() { end as int } else { b@.len() as int }, (after + 1) as nat)
                == forward_to_line(b@, trailing as int, k as nat),
        decreases b@.len() - trailing,
    {
        if b[trailing] == 10u8 {
            k = k - 1;
        }
        trailing = trailing + 1;
    }
    (leading, trailing)
}

} // verus!
