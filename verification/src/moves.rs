//! Parsing "move N from A to B" instruction lines.
//!
//! An instruction line is any line in which the pattern
//! `move <digits> from <digits> to <digits>` occurs.  The pattern may start
//! anywhere in the line; the leftmost occurrence is the one that counts, and
//! each number is the full run of digits that follows its keyword.

use vstd::prelude::*;

use crate::diagram::{DIGIT_NINE, DIGIT_ZERO};
use crate::plan::PlanError;

verus! {

/// An ASCII decimal digit.
pub open spec fn is_digit(b: u8) -> bool {
    DIGIT_ZERO <= b <= DIGIT_NINE
}

/// The bytes of the opening keyword (the word `move` and a space).
pub open spec fn kw_move() -> Seq<u8> {
    seq![109u8, 111u8, 118u8, 101u8, 32u8]
}

/// The bytes of the middle keyword (the word `from` between spaces).
pub open spec fn kw_from() -> Seq<u8> {
    seq![32u8, 102u8, 114u8, 111u8, 109u8, 32u8]
}

/// The bytes of the closing keyword (the word `to` between spaces).
pub open spec fn kw_to() -> Seq<u8> {
    seq![32u8, 116u8, 111u8, 32u8]
}

/// The word `w` occurs in `line` starting at position `i`.
pub open spec fn lit_at(line: Seq<u8>, i: int, w: Seq<u8>) -> bool {
    &&& 0 <= i
    &&& i + w.len() <= line.len()
    &&& forall|j: int| 0 <= j < w.len() ==> line[i + j] == w[j]
}

/// The position just past the run of digits that starts at `i`.
pub open spec fn digit_run_end(line: Seq<u8>, i: int) -> int
    decreases line.len() - i,
{
    if 0 <= i < line.len() && is_digit(line[i]) {
        digit_run_end(line, i + 1)
    } else {
        i
    }
}

/// Where the count digits of a match starting at `s` end.
pub open spec fn count_end(line: Seq<u8>, s: int) -> int {
    digit_run_end(line, s + 5)
}

/// Where the source digits of a match starting at `s` begin.
pub open spec fn from_start(line: Seq<u8>, s: int) -> int {
    count_end(line, s) + 6
}

/// Where the source digits of a match starting at `s` end.
pub open spec fn from_end(line: Seq<u8>, s: int) -> int {
    digit_run_end(line, from_start(line, s))
}

/// Where the destination digits of a match starting at `s` begin.
pub open spec fn to_start(line: Seq<u8>, s: int) -> int {
    from_end(line, s) + 4
}

/// Where the destination digits of a match starting at `s` end.
pub open spec fn to_end(line: Seq<u8>, s: int) -> int {
    digit_run_end(line, to_start(line, s))
}

/// The instruction pattern matches at position `s`: the opening keyword, a
/// non-empty run of digits, the middle keyword, a non-empty run of digits,
/// the closing keyword, and a non-empty run of digits.
pub open spec fn move_match_at(line: Seq<u8>, s: int) -> bool {
    &&& lit_at(line, s, kw_move())
    &&& count_end(line, s) > s + 5
    &&& lit_at(line, count_end(line, s), kw_from())
    &&& from_end(line, s) > from_start(line, s)
    &&& lit_at(line, from_end(line, s), kw_to())
    &&& to_end(line, s) > to_start(line, s)
}

/// The leftmost position at or after `s` at which the pattern matches.
pub open spec fn first_move_at(line: Seq<u8>, s: int) -> Option<int>
    decreases line.len() - s + 1,
{
    if s < 0 || s > line.len() {
        None
    } else if move_match_at(line, s) {
        Some(s)
    } else if s == line.len() {
        None
    } else {
        first_move_at(line, s + 1)
    }
}

/// The leftmost position at which the pattern matches the line, if any.
pub open spec fn first_move(line: Seq<u8>) -> Option<int> {
    first_move_at(line, 0)
}

/// The digits of the count field of a match starting at `s`.
pub open spec fn count_field(line: Seq<u8>, s: int) -> Seq<u8> {
    line.subrange(s + 5, count_end(line, s))
}

/// The digits of the source field of a match starting at `s`.
pub open spec fn from_field(line: Seq<u8>, s: int) -> Seq<u8> {
    line.subrange(from_start(line, s), from_end(line, s))
}

/// The digits of the destination field of a match starting at `s`.
pub open spec fn to_field(line: Seq<u8>, s: int) -> Seq<u8> {
    line.subrange(to_start(line, s), to_end(line, s))
}

/// The number denoted by a run of decimal digit bytes.
pub open spec fn digits_value(ds: Seq<u8>) -> int
    decreases ds.len(),
{
    if ds.len() == 0 {
        0
    } else {
        10 * digits_value(ds.drop_last()) + (ds.last() - DIGIT_ZERO)
    }
}

/// One parsed move directive: move `count` crates from stack `from` to
/// stack `to`, with 1-based stack numbers.
#[derive(Clone, Copy, PartialEq, Eq, Structural, Debug)]
pub struct Instruction {
    /// How many crates to move.
    pub count: usize,
    /// The 1-based source stack number.
    pub from: usize,
    /// The 1-based destination stack number.
    pub to: usize,
}

/// What an instruction line contributes to the plan: nothing when the
/// pattern does not occur in it, an error when a matched number does not fit
/// in `usize`, and otherwise the parsed instruction.
pub open spec fn line_instruction(line: Seq<u8>) -> Result<Option<Instruction>, PlanError> {
    match first_move(line) {
        None => Ok(None),
        Some(s) => {
            if digits_value(count_field(line, s)) > usize::MAX as int || digits_value(
                from_field(line, s),
            ) > usize::MAX as int || digits_value(to_field(line, s)) > usize::MAX as int {
                Err(PlanError::NumberTooLarge)
            } else {
                Ok(
                    Some(
                        Instruction {
                            count: digits_value(count_field(line, s)) as usize,
                            from: digits_value(from_field(line, s)) as usize,
                            to: digits_value(to_field(line, s)) as usize,
                        },
                    ),
                )
            }
        },
    }
}

/// Every byte of a digit run is a digit.
proof fn lemma_digit_run(line: Seq<u8>, i: int)
    requires
        0 <= i,
    ensures
        forall|j: int| i <= j < digit_run_end(line, i) ==> is_digit(#[trigger] line[j]),
        i <= digit_run_end(line, i),
    decreases line.len() - i,
{
    if 0 <= i < line.len() && is_digit(line[i]) {
        lemma_digit_run(line, i + 1);
    }
}

/// A run of digits is worth no less than any of its prefixes.
proof fn lemma_digits_value_nonneg(ds: Seq<u8>)
    requires
        forall|j: int| 0 <= j < ds.len() ==> is_digit(#[trigger] ds[j]),
    ensures
        digits_value(ds) >= 0,
    decreases ds.len(),
{
    if ds.len() > 0 {
        lemma_digits_value_nonneg(ds.drop_last());
    }
}

/// Extending a run of digits to the right never shrinks its value.
proof fn lemma_digits_value_mono(line: Seq<u8>, start: int, mid: int, end: int)
    requires
        0 <= start <= mid <= end <= line.len(),
        forall|j: int| start <= j < end ==> is_digit(#[trigger] line[j]),
    ensures
        digits_value(line.subrange(start, mid)) <= digits_value(line.subrange(start, end)),
    decreases end - mid,
{
    if mid < end {
        assert(line.subrange(start, mid + 1).drop_last() =~= line.subrange(start, mid));
        lemma_digits_value_nonneg(line.subrange(start, mid));
        lemma_digits_value_mono(line, start, mid + 1, end);
    }
}

/// Scans past the run of digits that starts at `i`.
#[verifier::loop_isolation(false)]
fn scan_digits(line: &Vec<u8>, i: usize) -> (e: usize)
    requires
        i <= line@.len(),
    ensures
        e == digit_run_end(line@, i as int),
        i <= e <= line@.len(),
{
    let mut e = i;
    while e < line.len() && DIGIT_ZERO <= line[e] && line[e] <= DIGIT_NINE
        invariant
            i <= e <= line@.len(),
            digit_run_end(line@, i as int) == digit_run_end(line@, e as int),
        decreases line@.len() - e,
    {
        e += 1;
    }
    e
}

/// Parses a run of digit bytes as a `usize`, reporting a value that does
/// not fit.
#[verifier::loop_isolation(false)]
fn parse_value(line: &Vec<u8>, start: usize, end: usize) -> (r: Option<usize>)
    requires
        start <= end <= line@.len(),
        forall|j: int| start <= j < end ==> is_digit(#[trigger] line@[j]),
    ensures
        match r {
            Some(v) => v as int == digits_value(line@.subrange(start as int, end as int)),
            None => digits_value(line@.subrange(start as int, end as int)) > usize::MAX as int,
        },
{
    let mut acc: usize = 0;
    let mut j = start;
    while j < end
        invariant
            start <= j <= end,
            acc as int == digits_value(line@.subrange(start as int, j as int)),
        decreases end - j,
    {
        let d = line[j] - DIGIT_ZERO;
        let next = match acc.checked_mul(10) {
            Some(m) => m.checked_add(d as usize),
            None => None,
        };
        assert(line@.subrange(start as int, j + 1).drop_last() =~= line@.subrange(
            start as int,
            j as int,
        ));
        match next {
            Some(v) => {
                acc = v;
            },
            None => {
                proof {
                    lemma_digits_value_mono(line@, start as int, j + 1, end as int);
                }
                return None;
            },
        }
        j += 1;
    }
    Some(acc)
}

/// Does the instruction pattern match at position `s`?
fn match_move_at(line: &Vec<u8>, s: usize) -> (b: bool)
    ensures
        b == move_match_at(line@, s as int),
{
    let n = line.len();
    if n < 5 || s > n - 5 {
        return false;
    }
    if !(line[s] == 109 && line[s + 1] == 111 && line[s + 2] == 118 && line[s + 3] == 101 && line[s
        + 4] == 32) {
        return false;
    }
    assert(lit_at(line@, s as int, kw_move()));
    let c_end = scan_digits(line, s + 5);
    if c_end == s + 5 {
        return false;
    }
    if n - c_end < 6 {
        return false;
    }
    if !(line[c_end] == 32 && line[c_end + 1] == 102 && line[c_end + 2] == 114 && line[c_end + 3]
        == 111 && line[c_end + 4] == 109 && line[c_end + 5] == 32) {
        return false;
    }
    assert(lit_at(line@, c_end as int, kw_from()));
    let f_end = scan_digits(line, c_end + 6);
    if f_end == c_end + 6 {
        return false;
    }
    if n - f_end < 4 {
        return false;
    }
    if !(line[f_end] == 32 && line[f_end + 1] == 116 && line[f_end + 2] == 111 && line[f_end + 3]
        == 32) {
        return false;
    }
    assert(lit_at(line@, f_end as int, kw_to()));
    let t_end = scan_digits(line, f_end + 4);
    if t_end == f_end + 4 {
        return false;
    }
    true
}

/// Finds the leftmost occurrence of the instruction pattern in the line and
/// parses its three numbers.
#[verifier::loop_isolation(false)]
pub fn parse_move_line(line: &Vec<u8>) -> (r: Result<Option<Instruction>, PlanError>)
    ensures
        r == line_instruction(line@),
{
    let n = line.len();
    let mut s: usize = 0;
    while s < n
        invariant
            s <= n,
            first_move(line@) == first_move_at(line@, s as int),
        decreases n - s,
    {
        if match_move_at(line, s) {
            let c_start = s + 5;
            let c_end = scan_digits(line, c_start);
            let f_start = c_end + 6;
            let f_end = scan_digits(line, f_start);
            let t_start = f_end + 4;
            let t_end = scan_digits(line, t_start);
            proof {
                lemma_digit_run(line@, c_start as int);
                lemma_digit_run(line@, f_start as int);
                lemma_digit_run(line@, t_start as int);
            }
            let c = parse_value(line, c_start, c_end);
            let f = parse_value(line, f_start, f_end);
            let t = parse_value(line, t_start, t_end);
            return match (c, f, t) {
                (Some(count), Some(from), Some(to)) => Ok(
                    Some(Instruction { count, from, to }),
                ),
                _ => Err(PlanError::NumberTooLarge),
            };
        }
        s += 1;
    }
    Ok(None)
}

} // verus!
