//! The stack collection and the two transfer policies.
//!
//! A stack is a `Vec<u8>` of single-byte labels, bottom first, so the top of
//! the stack is the last element.  A collection is a `Vec<Vec<u8>>`, indexed
//! by stack number; index 0 is a sentinel that stays empty, so instruction
//! indices (which count from 1) address the vector directly.

use vstd::prelude::*;

verus! {

/// Which transfer semantics a move uses: `SingleItem` moves the crates one at
/// a time, reversing the order of the moved run, while `Bulk` moves the whole
/// run at once, keeping its order.
#[derive(Clone, Copy, PartialEq, Eq, Structural, Debug)]
pub enum Policy {
    SingleItem,
    Bulk,
}

/// The contents of a stack collection, as a sequence of label sequences.
pub open spec fn as_seqs(stacks: Seq<Vec<u8>>) -> Seq<Seq<u8>> {
    Seq::new(stacks.len(), |i: int| stacks[i]@)
}

/// A move of `count` items from stack `from` to stack `to` stays in bounds.
pub open spec fn valid_move(stacks: Seq<Seq<u8>>, count: int, from: int, to: int) -> bool {
    &&& 0 <= from < stacks.len()
    &&& 0 <= to < stacks.len()
    &&& 0 <= count <= stacks[from].len()
}

/// The state after moving the top `count` items of stack `from` onto stack
/// `to`: the moved run is reversed under `Policy::SingleItem` and kept in
/// order under `Policy::Bulk`.
pub open spec fn apply_move(
    policy: Policy,
    count: int,
    from: int,
    to: int,
    stacks: Seq<Seq<u8>>,
) -> Seq<Seq<u8>>
    recommends
        valid_move(stacks, count, from, to),
{
    let src = stacks[from];
    let run = src.skip(src.len() - count);
    let moved = match policy {
        Policy::SingleItem => run.reverse(),
        Policy::Bulk => run,
    };
    let lowered = stacks.update(from, src.take(src.len() - count));
    lowered.update(to, lowered[to] + moved)
}

/// Moves the top `num` crates from stack `from` to stack `to` as if they were
/// moved one at a time, so the run lands in reversed order.
#[verifier::loop_isolation(false)]
pub fn crate_mover_9000(num: usize, from: usize, to: usize, crates: &mut Vec<Vec<u8>>)
    requires
        from < old(crates)@.len(),
        to < old(crates)@.len(),
        num <= old(crates)@[from as int]@.len(),
    ensures
        as_seqs(final(crates)@) == apply_move(
            Policy::SingleItem,
            num as int,
            from as int,
            to as int,
            as_seqs(old(crates)@),
        ),
{
    let ghost s0 = as_seqs(old(crates)@);
    let ghost src = s0[from as int];
    let ghost run = src.skip(src.len() - num);
    let src_len = crates[from].len();
    let mut moved: Vec<u8> = Vec::new();
    let mut j: usize = 0;
    while j < num
        invariant
            j <= num,
            num <= src_len == src.len(),
            from < crates@.len(),
            crates@[from as int]@ == src,
            moved@ == run.skip(run.len() - j).reverse(),
        decreases num - j,
    {
        let label = crates[from][src_len - 1 - j];
        moved.push(label);
        assert(moved@ =~= run.skip(run.len() - (j + 1)).reverse());
        j += 1;
    }
    assert(moved@ =~= run.reverse());
    crates[from].truncate(src_len - num);
    crates[to].append(&mut moved);
    assert(as_seqs(crates@) =~~= apply_move(
        Policy::SingleItem,
        num as int,
        from as int,
        to as int,
        s0,
    ));
}

/// Moves the top `num` crates from stack `from` to stack `to` all at once,
/// so the run keeps its order.
#[verifier::loop_isolation(false)]
pub fn crate_mover_9001(num: usize, from: usize, to: usize, crates: &mut Vec<Vec<u8>>)
    requires
        from < old(crates)@.len(),
        to < old(crates)@.len(),
        num <= old(crates)@[from as int]@.len(),
    ensures
        as_seqs(final(crates)@) == apply_move(
            Policy::Bulk,
            num as int,
            from as int,
            to as int,
            as_seqs(old(crates)@),
        ),
{
    let ghost s0 = as_seqs(old(crates)@);
    let ghost src = s0[from as int];
    let ghost run = src.skip(src.len() - num);
    let src_len = crates[from].len();
    let mut moved: Vec<u8> = Vec::new();
    let mut j: usize = 0;
    while j < num
        invariant
            j <= num,
            num <= src_len == src.len(),
            from < crates@.len(),
            crates@[from as int]@ == src,
            moved@ == run.take(j as int),
        decreases num - j,
    {
        let label = crates[from][src_len - num + j];
        moved.push(label);
        assert(moved@ =~= run.take(j + 1));
        j += 1;
    }
    assert(moved@ =~= run);
    crates[from].truncate(src_len - num);
    crates[to].append(&mut moved);
    assert(as_seqs(crates@) =~~= apply_move(
        Policy::Bulk,
        num as int,
        from as int,
        to as int,
        s0,
    ));
}

/// The total number of items held across all stacks.
pub open spec fn total_items(stacks: Seq<Seq<u8>>) -> nat
    decreases stacks.len(),
{
    if stacks.len() == 0 {
        0
    } else {
        total_items(stacks.drop_last()) + stacks.last().len()
    }
}

/// Replacing one stack changes the total by the difference in that stack's
/// height.
proof fn lemma_total_update(stacks: Seq<Seq<u8>>, i: int, v: Seq<u8>)
    requires
        0 <= i < stacks.len(),
    ensures
        total_items(stacks.update(i, v)) + stacks[i].len() == total_items(stacks) + v.len(),
    decreases stacks.len(),
{
    let updated = stacks.update(i, v);
    if i == stacks.len() - 1 {
        assert(updated.drop_last() =~= stacks.drop_last());
    } else {
        assert(updated.drop_last() =~= stacks.drop_last().update(i, v));
        lemma_total_update(stacks.drop_last(), i, v);
    }
}

/// Items are moved, never created or destroyed: every valid move leaves the
/// total item count across all stacks unchanged, under either policy.
pub proof fn lemma_move_preserves_total(
    policy: Policy,
    count: int,
    from: int,
    to: int,
    stacks: Seq<Seq<u8>>,
)
    requires
        valid_move(stacks, count, from, to),
    ensures
        total_items(apply_move(policy, count, from, to, stacks)) == total_items(stacks),
{
    let src = stacks[from];
    let lowered = stacks.update(from, src.take(src.len() - count));
    lemma_total_update(stacks, from, src.take(src.len() - count));
    let run = src.skip(src.len() - count);
    let moved = match policy {
        Policy::SingleItem => run.reverse(),
        Policy::Bulk => run,
    };
    assert(moved.len() == count);
    lemma_total_update(lowered, to, lowered[to] + moved);
}

/// A run of length 1 is moved the same way by both policies: reversing a
/// one-element sequence is a no-op.
pub proof fn lemma_policies_agree_on_one(from: int, to: int, stacks: Seq<Seq<u8>>)
    requires
        valid_move(stacks, 1, from, to),
    ensures
        apply_move(Policy::SingleItem, 1, from, to, stacks) == apply_move(
            Policy::Bulk,
            1,
            from,
            to,
            stacks,
        ),
{
    let src = stacks[from];
    let run = src.skip(src.len() - 1);
    assert(run.reverse() =~= run);
}

/// Moving a run and then moving it straight back restores every stack: under
/// `SingleItem` the double reversal cancels, and under `Bulk` the run is
/// never reversed in the first place.
pub proof fn lemma_move_round_trip(
    policy: Policy,
    count: int,
    from: int,
    to: int,
    stacks: Seq<Seq<u8>>,
)
    requires
        valid_move(stacks, count, from, to),
    ensures
        valid_move(apply_move(policy, count, from, to, stacks), count, to, from),
        apply_move(policy, count, to, from, apply_move(policy, count, from, to, stacks))
            == stacks,
{
    let src = stacks[from];
    let n = src.len() as int;
    let run = src.skip(n - count);
    let moved = match policy {
        Policy::SingleItem => run.reverse(),
        Policy::Bulk => run,
    };
    let mid = apply_move(policy, count, from, to, stacks);
    assert(run.reverse().reverse() =~= run);
    if from == to {
        assert(mid[from] == src.take(n - count) + moved);
        assert((src.take(n - count) + moved).skip(n - count) =~= moved);
        assert((src.take(n - count) + moved).take(n - count) =~= src.take(n - count));
        let moved_back = match policy {
            Policy::SingleItem => moved.reverse(),
            Policy::Bulk => moved,
        };
        assert(moved_back =~= run);
        assert(src.take(n - count) + run =~= src);
        assert(apply_move(policy, count, to, from, mid) =~~= stacks);
    } else {
        assert(mid[to] == stacks[to] + moved);
        assert(mid[from] == src.take(n - count));
        assert((stacks[to] + moved).skip(stacks[to].len() as int) =~= moved);
        assert((stacks[to] + moved).take(stacks[to].len() as int) =~= stacks[to]);
        let moved_back = match policy {
            Policy::SingleItem => moved.reverse(),
            Policy::Bulk => moved,
        };
        assert(moved_back =~= run);
        assert(src.take(n - count) + run =~= src);
        assert(apply_move(policy, count, to, from, mid) =~~= stacks);
    }
}

/// A move of a stack's full height onto another stack leaves the source
/// empty and lands every moved item on the destination.
pub proof fn lemma_full_move_empties_source(
    policy: Policy,
    from: int,
    to: int,
    stacks: Seq<Seq<u8>>,
)
    requires
        valid_move(stacks, stacks[from].len() as int, from, to),
        from != to,
    ensures
        apply_move(policy, stacks[from].len() as int, from, to, stacks)[from].len() == 0,
        apply_move(policy, stacks[from].len() as int, from, to, stacks)[to].len()
            == stacks[to].len() + stacks[from].len(),
{
}

/// The top label of every stack in stack order; an empty stack contributes
/// nothing.
pub open spec fn tops(stacks: Seq<Seq<u8>>) -> Seq<u8>
    decreases stacks.len(),
{
    if stacks.len() == 0 {
        Seq::empty()
    } else {
        tops(stacks.drop_last()) + if stacks.last().len() > 0 {
            seq![stacks.last().last()]
        } else {
            Seq::empty()
        }
    }
}

/// Reads the label on top of each stack, in ascending stack order, skipping
/// stacks that are empty.
#[verifier::loop_isolation(false)]
pub fn top_crates(crates: &Vec<Vec<u8>>) -> (r: Vec<u8>)
    ensures
        r@ == tops(as_seqs(crates@)),
{
    let mut r: Vec<u8> = Vec::new();
    let mut k: usize = 0;
    while k < crates.len()
        invariant
            k <= crates@.len(),
            r@ == tops(as_seqs(crates@).take(k as int)),
        decreases crates@.len() - k,
    {
        let height = crates[k].len();
        if height > 0 {
            r.push(crates[k][height - 1]);
        }
        assert(as_seqs(crates@).take(k + 1).drop_last() =~= as_seqs(crates@).take(k as int));
        assert(r@ =~= tops(as_seqs(crates@).take(k + 1)));
        k += 1;
    }
    assert(as_seqs(crates@).take(crates@.len() as int) =~= as_seqs(crates@));
    r
}

} // verus!

