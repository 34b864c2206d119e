use crate_mover::plan::{execute_crate_plan, part_1, part_2, PlanError};
use crate_mover::stacks::Policy;

fn to_lines(text: &[&str]) -> Vec<Vec<u8>> {
    let mut lines = Vec::new();
    for s in text.iter() {
        lines.push(s.as_bytes().to_vec());
    }
    lines
}

fn sample_plan() -> Vec<Vec<u8>> {
    to_lines(&[
        "    [D]    ",
        "[N] [C]    ",
        "[Z] [M] [P]",
        " 1   2   3 ",
        "",
        "move 1 from 2 to 1",
        "move 3 from 1 to 3",
        "move 2 from 2 to 1",
        "move 1 from 1 to 2",
    ])
}

#[test]
fn sample_plan_single_item() {
    let lines = sample_plan();
    assert_eq!(part_1(&lines), Ok(b"CMZ".to_vec()));
}

#[test]
fn sample_plan_bulk() {
    let lines = sample_plan();
    assert_eq!(part_2(&lines), Ok(b"MCD".to_vec()));
}

#[test]
fn empty_input_yields_empty_summary() {
    let lines: Vec<Vec<u8>> = Vec::new();
    assert_eq!(part_1(&lines), Ok(Vec::new()));
    assert_eq!(part_2(&lines), Ok(Vec::new()));
}

#[test]
fn diagram_without_instructions() {
    let lines = to_lines(&["[A] [B]", " 1   2 "]);
    assert_eq!(part_1(&lines), Ok(b"AB".to_vec()));
}

#[test]
fn emptied_stack_contributes_nothing() {
    // Moving a stack's full height empties it; the summary then skips it.
    let lines = to_lines(&["[A] [B]", " 1   2 ", "", "move 1 from 1 to 2"]);
    assert_eq!(part_1(&lines), Ok(b"A".to_vec()));
    assert_eq!(part_2(&lines), Ok(b"A".to_vec()));
}

#[test]
fn full_height_move_does_not_error() {
    let lines = to_lines(&["[A]    ", "[B] [C]", " 1   2 ", "", "move 2 from 1 to 2"]);
    assert_eq!(part_1(&lines), Ok(b"B".to_vec()));
    assert_eq!(part_2(&lines), Ok(b"A".to_vec()));
}

#[test]
fn oversized_number_is_reported() {
    let lines = to_lines(&["[A]", " 1 ", "", "move 99999999999999999999999999 from 1 to 1"]);
    assert_eq!(part_1(&lines), Err(PlanError::NumberTooLarge));
    assert_eq!(part_2(&lines), Err(PlanError::NumberTooLarge));
}

#[test]
fn out_of_range_stack_is_reported() {
    let lines = to_lines(&["[A]", " 1 ", "", "move 1 from 9 to 1"]);
    assert_eq!(part_1(&lines), Err(PlanError::InvalidMove));
}

#[test]
fn underflowing_move_is_reported() {
    let lines = to_lines(&["[A]", " 1 ", "", "move 2 from 1 to 1"]);
    assert_eq!(part_1(&lines), Err(PlanError::InvalidMove));
}

#[test]
fn error_stops_the_run() {
    // The bad line comes before a well-formed one; nothing after it runs.
    let lines = to_lines(&[
        "[A] [B]",
        " 1   2 ",
        "",
        "move 1 from 9 to 1",
        "move 1 from 1 to 2",
    ]);
    assert_eq!(part_1(&lines), Err(PlanError::InvalidMove));
}

#[test]
fn non_matching_lines_are_skipped() {
    let lines = to_lines(&[
        "[A] [B]",
        " 1   2 ",
        "",
        "this line is not an instruction",
        "move 1 from 1 to 2",
        "",
    ]);
    assert_eq!(part_1(&lines), Ok(b"A".to_vec()));
}

#[test]
fn execute_matches_parts() {
    let lines = sample_plan();
    assert_eq!(execute_crate_plan(Policy::SingleItem, &lines), part_1(&lines));
    assert_eq!(execute_crate_plan(Policy::Bulk, &lines), part_2(&lines));
}

#[test]
fn separator_line_is_discarded_even_if_instruction() {
    // The first non-diagram line is consumed as the separator, so an
    // instruction in that position is never executed; only the second move
    // line runs, leaving stack 1 empty and stack 2 topped by the moved crate.
    let lines = to_lines(&["[A] [B]", "move 1 from 1 to 2", "move 1 from 1 to 2"]);
    assert_eq!(part_1(&lines), Ok(b"A".to_vec()));
}
