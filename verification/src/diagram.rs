//! Parsing the fixed-width crate diagram.
//!
//! The diagram section is the leading run of lines that contain at least one
//! bracketed single-character label, such as `[D]`.  The column at which a
//! label starts identifies its stack: the diagram uses fixed-width columns,
//! so the same stack's labels share a column on every line.  Ascending
//! column order is ascending stack order, and the diagram draws each stack
//! top first, so a column read top to bottom lists a stack top to bottom.

use vstd::prelude::*;

use crate::stacks::as_seqs;

verus! {

/// ASCII `[`.
pub const LEFT_BRACKET: u8 = 91;

/// ASCII `]`.
pub const RIGHT_BRACKET: u8 = 93;

/// ASCII `_`.
pub const UNDERSCORE: u8 = 95;

/// ASCII `0`.
pub const DIGIT_ZERO: u8 = 48;

/// ASCII `9`.
pub const DIGIT_NINE: u8 = 57;

/// ASCII `A`.
pub const UPPER_A: u8 = 65;

/// ASCII `Z`.
pub const UPPER_Z: u8 = 90;

/// ASCII `a`.
pub const LOWER_A: u8 = 97;

/// ASCII `z`.
pub const LOWER_Z: u8 = 122;

/// A byte that the bracket pattern accepts as a label: an ASCII letter,
/// digit or underscore.
pub open spec fn is_word_byte(b: u8) -> bool {
    ||| DIGIT_ZERO <= b <= DIGIT_NINE
    ||| UPPER_A <= b <= UPPER_Z
    ||| LOWER_A <= b <= LOWER_Z
    ||| b == UNDERSCORE
}

/// A bracketed label starts at column `o` of the line: an opening bracket,
/// one word byte, a closing bracket.
pub open spec fn token_at(line: Seq<u8>, o: int) -> bool {
    &&& 0 <= o
    &&& o + 2 < line.len()
    &&& line[o] == LEFT_BRACKET
    &&& is_word_byte(line[o + 1])
    &&& line[o + 2] == RIGHT_BRACKET
}

/// A line belongs to the diagram section when it holds at least one
/// bracketed label.
pub open spec fn is_diagram_line(line: Seq<u8>) -> bool {
    exists|o: int| token_at(line, o)
}

/// The number of leading lines that belong to the diagram section.
pub open spec fn diagram_len(lines: Seq<Seq<u8>>) -> int
    decreases lines.len(),
{
    if lines.len() == 0 {
        0
    } else if is_diagram_line(lines.first()) {
        1 + diagram_len(lines.drop_first())
    } else {
        0
    }
}

/// The length of the longest line.
pub open spec fn max_line_len(lines: Seq<Seq<u8>>) -> int
    decreases lines.len(),
{
    if lines.len() == 0 {
        0
    } else {
        let rest = max_line_len(lines.drop_last());
        if lines.last().len() > rest {
            lines.last().len() as int
        } else {
            rest
        }
    }
}

/// Some line has a bracketed label at column `o`.
pub open spec fn has_column(lines: Seq<Seq<u8>>, o: int) -> bool {
    exists|k: int| 0 <= k < lines.len() && token_at(lines[k], o)
}

/// The columns below `n` that hold at least one label, in ascending order.
pub open spec fn columns_up_to(lines: Seq<Seq<u8>>, n: int) -> Seq<int>
    decreases n,
{
    if n <= 0 {
        Seq::empty()
    } else if has_column(lines, n - 1) {
        columns_up_to(lines, n - 1).push(n - 1)
    } else {
        columns_up_to(lines, n - 1)
    }
}

/// Every column that holds at least one label, in ascending order.
pub open spec fn columns(lines: Seq<Seq<u8>>) -> Seq<int> {
    columns_up_to(lines, max_line_len(lines))
}

/// The labels at column `o`, bottom of the stack first.  The diagram draws
/// the top of each stack first, so the bottom label comes from the last line
/// with a label at `o` and the top label from the first.
pub open spec fn column_bottom_to_top(lines: Seq<Seq<u8>>, o: int) -> Seq<u8>
    decreases lines.len(),
{
    if lines.len() == 0 {
        Seq::empty()
    } else {
        column_bottom_to_top(lines.drop_first(), o) + if token_at(lines.first(), o) {
            seq![lines.first()[o + 1]]
        } else {
            Seq::empty()
        }
    }
}

/// The number of bracketed labels at column `o` across the lines.
pub open spec fn count_tokens_at(lines: Seq<Seq<u8>>, o: int) -> nat
    decreases lines.len(),
{
    if lines.len() == 0 {
        0
    } else {
        count_tokens_at(lines.drop_first(), o) + if token_at(lines.first(), o) {
            1nat
        } else {
            0
        }
    }
}

/// Parsing pads or truncates nothing: the stack read from a column is
/// exactly as tall as the number of bracketed labels parsed at that column
/// across all the lines.
pub proof fn lemma_column_height(lines: Seq<Seq<u8>>, o: int)
    ensures
        column_bottom_to_top(lines, o).len() == count_tokens_at(lines, o),
    decreases lines.len(),
{
    if lines.len() > 0 {
        lemma_column_height(lines.drop_first(), o);
    }
}

/// A column holds at least one label exactly when its stack is non-empty.
proof fn lemma_column_occupied(lines: Seq<Seq<u8>>, o: int)
    ensures
        has_column(lines, o) <==> column_bottom_to_top(lines, o).len() > 0,
    decreases lines.len(),
{
    if lines.len() > 0 {
        lemma_column_occupied(lines.drop_first(), o);
        if token_at(lines.first(), o) {
            assert(has_column(lines, o));
        } else {
            if has_column(lines, o) {
                let k = choose|k: int| 0 <= k < lines.len() && token_at(lines[k], o);
                assert(token_at(lines.drop_first()[k - 1], o));
            }
            if has_column(lines.drop_first(), o) {
                let k = choose|k: int| 0 <= k < lines.drop_first().len() && token_at(
                    lines.drop_first()[k],
                    o,
                );
                assert(token_at(lines[k + 1], o));
            }
        }
    }
}

/// The diagram section ends exactly at the first line with no bracketed
/// label: the lines before it are the whole diagram, so that line is never
/// interpreted as stack content.
pub proof fn lemma_diagram_len_at(lines: Seq<Seq<u8>>, d: int)
    requires
        0 <= d <= lines.len(),
        forall|i: int| 0 <= i < d ==> is_diagram_line(#[trigger] lines[i]),
        d < lines.len() ==> !is_diagram_line(lines[d]),
    ensures
        diagram_len(lines) == d,
    decreases lines.len(),
{
    if lines.len() > 0 && d > 0 {
        assert forall|i: int| 0 <= i < d - 1 implies is_diagram_line(
            #[trigger] lines.drop_first()[i],
        ) by {
            assert(lines.drop_first()[i] == lines[i + 1]);
        }
        lemma_diagram_len_at(lines.drop_first(), d - 1);
    }
}

/// The stack collection encoded by the diagram lines: a sentinel empty stack
/// at index 0, then one stack per occupied column in ascending column order,
/// each holding its column's labels bottom to top.
pub open spec fn initial_stacks(lines: Seq<Seq<u8>>) -> Seq<Seq<u8>> {
    seq![Seq::<u8>::empty()] + columns(lines).map_values(
        |o: int| column_bottom_to_top(lines, o),
    )
}

/// Reads the label of the bracketed token starting at column `o`, if one
/// does.
fn label_at(line: &Vec<u8>, o: usize) -> (r: Option<u8>)
    ensures
        match r {
            Some(lab) => token_at(line@, o as int) && lab == line@[o as int + 1],
            None => !token_at(line@, o as int),
        },
{
    if line.len() >= 3 && o <= line.len() - 3 {
        let b0 = line[o];
        let b1 = line[o + 1];
        let b2 = line[o + 2];
        if b0 == LEFT_BRACKET && b2 == RIGHT_BRACKET && (b1 == UNDERSCORE || (DIGIT_ZERO <= b1
            && b1 <= DIGIT_NINE) || (UPPER_A <= b1 && b1 <= UPPER_Z) || (LOWER_A <= b1
            && b1 <= LOWER_Z)) {
            Some(b1)
        } else {
            None
        }
    } else {
        None
    }
}

/// Does the line hold at least one bracketed label?
#[verifier::loop_isolation(false)]
fn diagram_line(line: &Vec<u8>) -> (b: bool)
    ensures
        b == is_diagram_line(line@),
{
    let n = line.len();
    let mut o: usize = 0;
    while o < n
        invariant
            o <= n,
            forall|c: int| 0 <= c < o ==> !token_at(line@, c),
        decreases n - o,
    {
        match label_at(line, o) {
            Some(_) => {
                assert(token_at(line@, o as int));
                return true;
            },
            None => {},
        }
        o += 1;
    }
    false
}

/// Parses the diagram section: returns the initial stack collection and the
/// number of leading lines the section occupied.
#[verifier::loop_isolation(false)]
pub fn parse_diagram(lines: &Vec<Vec<u8>>) -> (r: (Vec<Vec<u8>>, usize))
    ensures
        r.1 == diagram_len(as_seqs(lines@)),
        r.1 <= lines@.len(),
        as_seqs(r.0@) == initial_stacks(as_seqs(lines@).take(r.1 as int)),
{
    let ghost all = as_seqs(lines@);
    let mut used: usize = 0;
    while used < lines.len() && diagram_line(&lines[used])
        invariant
            used <= lines@.len(),
            forall|i: int| 0 <= i < used ==> is_diagram_line(#[trigger] all[i]),
        decreases lines@.len() - used,
    {
        used += 1;
    }
    proof {
        lemma_diagram_len_at(all, used as int);
    }
    let ghost prefix = all.take(used as int);

    let mut width: usize = 0;
    let mut k: usize = 0;
    while k < used
        invariant
            k <= used,
            width == max_line_len(prefix.take(k as int)),
        decreases used - k,
    {
        if lines[k].len() > width {
            width = lines[k].len();
        }
        assert(prefix.take(k + 1).drop_last() =~= prefix.take(k as int));
        k += 1;
    }
    assert(prefix.take(used as int) =~= prefix);

    let mut stacks: Vec<Vec<u8>> = Vec::new();
    stacks.push(Vec::new());
    let mut o: usize = 0;
    while o < width
        invariant
            o <= width,
            stacks@.len() == columns_up_to(prefix, o as int).len() + 1,
            stacks@[0]@ == Seq::<u8>::empty(),
            forall|j: int|
                0 <= j < columns_up_to(prefix, o as int).len() ==> (#[trigger] stacks@[j + 1])@
                    == column_bottom_to_top(prefix, columns_up_to(prefix, o as int)[j]),
        decreases width - o,
    {
        let mut col: Vec<u8> = Vec::new();
        let mut k2: usize = used;
        while k2 > 0
            invariant
                k2 <= used,
                col@ == column_bottom_to_top(prefix.skip(k2 as int), o as int),
            decreases k2,
        {
            k2 -= 1;
            match label_at(&lines[k2], o) {
                Some(lab) => col.push(lab),
                None => {},
            }
            assert(prefix.skip(k2 as int).drop_first() =~= prefix.skip(k2 + 1));
            assert(col@ =~= column_bottom_to_top(prefix.skip(k2 as int), o as int));
        }
        assert(prefix.skip(0) =~= prefix);
        proof {
            lemma_column_occupied(prefix, o as int);
        }
        if col.len() > 0 {
            stacks.push(col);
        }
        o += 1;
    }
    proof {
        assert forall|c: int| has_column(prefix, c) implies c < width by {
            let k3 = choose|k3: int| 0 <= k3 < prefix.len() && token_at(prefix[k3], c);
            lemma_line_bounds_max(prefix, k3);
        }
        assert(columns_up_to(prefix, width as int) =~= columns(prefix)) by {
            lemma_columns_stable(prefix, width as int, max_line_len(prefix));
        }
        let cols = columns_up_to(prefix, width as int);
        assert forall|i: int| 0 <= i < stacks@.len() implies as_seqs(stacks@)[i]
            == initial_stacks(prefix)[i] by {
            if i > 0 {
                assert(stacks@[(i - 1) + 1]@ == column_bottom_to_top(prefix, cols[i - 1]));
            }
        }
        assert(as_seqs(stacks@) =~= initial_stacks(prefix));
    }
    (stacks, used)
}

/// Every line is at most as long as the longest line.
proof fn lemma_line_bounds_max(lines: Seq<Seq<u8>>, k: int)
    requires
        0 <= k < lines.len(),
    ensures
        lines[k].len() <= max_line_len(lines),
    decreases lines.len(),
{
    if k < lines.len() - 1 {
        assert(lines.drop_last()[k] == lines[k]);
        lemma_line_bounds_max(lines.drop_last(), k);
    }
}

/// Raising the column bound past every occupied column adds nothing.
proof fn lemma_columns_stable(lines: Seq<Seq<u8>>, n: int, m: int)
    requires
        0 <= n <= m,
        forall|c: int| has_column(lines, c) ==> c < n,
    ensures
        columns_up_to(lines, m) == columns_up_to(lines, n),
    decreases m - n,
{
    if m > n {
        lemma_columns_stable(lines, n, m - 1);
    }
}

} // verus!
