use crate_mover::stacks::{crate_mover_9000, crate_mover_9001, top_crates};

fn sample_stacks() -> Vec<Vec<u8>> {
    vec![Vec::new(), b"ZN".to_vec(), b"MCD".to_vec(), b"P".to_vec()]
}

fn total(stacks: &Vec<Vec<u8>>) -> usize {
    stacks.iter().map(|s| s.len()).sum()
}

#[test]
fn mover_9000_reverses_the_run() {
    let mut stacks = sample_stacks();
    crate_mover_9000(2, 2, 3, &mut stacks);
    assert_eq!(stacks[2], b"M".to_vec());
    assert_eq!(stacks[3], b"PDC".to_vec());
}

#[test]
fn mover_9001_keeps_the_run_in_order() {
    let mut stacks = sample_stacks();
    crate_mover_9001(2, 2, 3, &mut stacks);
    assert_eq!(stacks[2], b"M".to_vec());
    assert_eq!(stacks[3], b"PCD".to_vec());
}

#[test]
fn movers_preserve_the_total_item_count() {
    let mut stacks = sample_stacks();
    let before = total(&stacks);
    crate_mover_9000(3, 2, 1, &mut stacks);
    assert_eq!(total(&stacks), before);
    crate_mover_9001(2, 1, 3, &mut stacks);
    assert_eq!(total(&stacks), before);
}

#[test]
fn movers_agree_on_a_single_crate() {
    let mut a = sample_stacks();
    let mut b = sample_stacks();
    crate_mover_9000(1, 2, 1, &mut a);
    crate_mover_9001(1, 2, 1, &mut b);
    assert_eq!(a, b);
}

#[test]
fn moving_back_restores_the_stacks() {
    let mut a = sample_stacks();
    crate_mover_9000(2, 2, 3, &mut a);
    crate_mover_9000(2, 3, 2, &mut a);
    assert_eq!(a, sample_stacks());

    let mut b = sample_stacks();
    crate_mover_9001(2, 2, 3, &mut b);
    crate_mover_9001(2, 3, 2, &mut b);
    assert_eq!(b, sample_stacks());
}

#[test]
fn full_height_move_empties_the_source() {
    let mut stacks = sample_stacks();
    crate_mover_9000(3, 2, 1, &mut stacks);
    assert!(stacks[2].is_empty());
    assert_eq!(stacks[1].len(), 5);
}

#[test]
fn moving_onto_the_same_stack() {
    // One-at-a-time semantics reverse the moved run in place.
    let mut stacks = sample_stacks();
    crate_mover_9000(2, 2, 2, &mut stacks);
    assert_eq!(stacks[2], b"MDC".to_vec());

    // Bulk semantics put the run back unchanged.
    let mut stacks = sample_stacks();
    crate_mover_9001(2, 2, 2, &mut stacks);
    assert_eq!(stacks[2], b"MCD".to_vec());
}

#[test]
fn zero_count_move_changes_nothing() {
    let mut stacks = sample_stacks();
    crate_mover_9000(0, 2, 3, &mut stacks);
    assert_eq!(stacks, sample_stacks());
}

#[test]
fn top_crates_skips_empty_stacks() {
    let stacks = vec![Vec::new(), b"AB".to_vec(), Vec::new(), b"C".to_vec()];
    assert_eq!(top_crates(&stacks), b"BC".to_vec());
}

#[test]
fn top_crates_of_all_empty_stacks() {
    let stacks = vec![Vec::new(), Vec::new()];
    assert_eq!(top_crates(&stacks), Vec::<u8>::new());
}
