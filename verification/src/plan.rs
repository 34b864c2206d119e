//! Executing a whole crate plan: parse the diagram, replay the move
//! instructions in order, and report the crate on top of each stack.

use vstd::prelude::*;

use crate::diagram::{diagram_len, initial_stacks, parse_diagram};
use crate::moves::{line_instruction, parse_move_line};
use crate::stacks::{
    apply_move, as_seqs, crate_mover_9000, crate_mover_9001, top_crates, tops, valid_move, Policy,
};

verus! {

/// Why a crate plan cannot be executed.
#[derive(Clone, Copy, PartialEq, Eq, Structural, Debug)]
pub enum PlanError {
    /// An instruction line matched the pattern but one of its numbers does
    /// not fit in `usize`.
    NumberTooLarge,
    /// An instruction addressed a stack that does not exist or asked for
    /// more crates than its source stack holds.
    InvalidMove,
}

/// The state after replaying the instruction lines in order, or the first
/// error.  Lines in which the pattern does not occur are skipped; a matched
/// number that does not fit in `usize` and a move that goes out of bounds
/// both stop the run.
pub open spec fn run_moves(
    policy: Policy,
    stacks: Seq<Seq<u8>>,
    lines: Seq<Seq<u8>>,
) -> Result<Seq<Seq<u8>>, PlanError>
    decreases lines.len(),
{
    if lines.len() == 0 {
        Ok(stacks)
    } else {
        match line_instruction(lines.first()) {
            Err(e) => Err(e),
            Ok(None) => run_moves(policy, stacks, lines.drop_first()),
            Ok(Some(inst)) => {
                if valid_move(stacks, inst.count as int, inst.from as int, inst.to as int) {
                    run_moves(
                        policy,
                        apply_move(
                            policy,
                            inst.count as int,
                            inst.from as int,
                            inst.to as int,
                            stacks,
                        ),
                        lines.drop_first(),
                    )
                } else {
                    Err(PlanError::InvalidMove)
                }
            },
        }
    }
}

/// The outcome of the whole plan: the diagram section builds the initial
/// stacks, the line after it is discarded as a separator, the remaining
/// lines are replayed, and the result lists the top label of every stack in
/// ascending stack order.
pub open spec fn plan_result(policy: Policy, lines: Seq<Seq<u8>>) -> Result<Seq<u8>, PlanError> {
    let d = diagram_len(lines);
    let init = initial_stacks(lines.take(d));
    let rest = if d < lines.len() {
        lines.skip(d + 1)
    } else {
        Seq::empty()
    };
    match run_moves(policy, init, rest) {
        Ok(stacks) => Ok(tops(stacks)),
        Err(e) => Err(e),
    }
}

/// Takes the lines of a crate moving plan and executes it with the given
/// transfer policy.
#[verifier::loop_isolation(false)]
pub fn execute_crate_plan(policy: Policy, lines: &Vec<Vec<u8>>) -> (r: Result<
    Vec<u8>,
    PlanError,
>)
    ensures
        match r {
            Ok(v) => plan_result(policy, as_seqs(lines@)) == Ok::<Seq<u8>, PlanError>(v@),
            Err(e) => plan_result(policy, as_seqs(lines@)) == Err::<Seq<u8>, PlanError>(e),
        },
{
    let ghost all = as_seqs(lines@);
    let (mut crates, used) = parse_diagram(lines);
    let ghost d = diagram_len(all);
    let ghost init = initial_stacks(all.take(d));
    let ghost rest = if d < all.len() {
        all.skip(d + 1)
    } else {
        Seq::<Seq<u8>>::empty()
    };
    let mut i: usize = if used < lines.len() {
        used + 1
    } else {
        lines.len()
    };
    proof {
        assert(all.skip(i as int) =~= rest);
    }
    while i < lines.len()
        invariant
            i <= lines@.len(),
            run_moves(policy, as_seqs(crates@), all.skip(i as int)) == run_moves(
                policy,
                init,
                rest,
            ),
        decreases lines@.len() - i,
    {
        let ghost pre = as_seqs(crates@);
        proof {
            assert(all.skip(i as int).drop_first() =~= all.skip(i + 1));
        }
        match parse_move_line(&lines[i]) {
            Err(e) => {
                return Err(e);
            },
            Ok(None) => {},
            Ok(Some(inst)) => {
                let ok = inst.from < crates.len() && inst.to < crates.len() && inst.count
                    <= crates[inst.from].len();
                if !ok {
                    return Err(PlanError::InvalidMove);
                }
                match policy {
                    Policy::SingleItem => crate_mover_9000(
                        inst.count,
                        inst.from,
                        inst.to,
                        &mut crates,
                    ),
                    Policy::Bulk => crate_mover_9001(inst.count, inst.from, inst.to, &mut crates),
                }
            },
        }
        i += 1;
    }
    proof {
        assert(all.skip(lines@.len() as int) =~= Seq::<Seq<u8>>::empty());
    }
    Ok(top_crates(&crates))
}

/// Executes the crate moving plan by moving the crates one at a time.
pub fn part_1(lines: &Vec<Vec<u8>>) -> (r: Result<Vec<u8>, PlanError>)
    ensures
        match r {
            Ok(v) => plan_result(Policy::SingleItem, as_seqs(lines@)) == Ok::<
                Seq<u8>,
                PlanError,
            >(v@),
            Err(e) => plan_result(Policy::SingleItem, as_seqs(lines@)) == Err::<
                Seq<u8>,
                PlanError,
            >(e),
        },
{
    execute_crate_plan(Policy::SingleItem, lines)
}

/// Executes the crate moving plan by moving each run of crates all at once.
pub fn part_2(lines: &Vec<Vec<u8>>) -> (r: Result<Vec<u8>, PlanError>)
    ensures
        match r {
            Ok(v) => plan_result(Policy::Bulk, as_seqs(lines@)) == Ok::<Seq<u8>, PlanError>(v@),
            Err(e) => plan_result(Policy::Bulk, as_seqs(lines@)) == Err::<Seq<u8>, PlanError>(e),
        },
{
    execute_crate_plan(Policy::Bulk, lines)
}

} // verus!
