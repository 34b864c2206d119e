use crate_mover::diagram::parse_diagram;
use crate_mover::moves::{parse_move_line, Instruction};
use crate_mover::plan::PlanError;

fn to_lines(text: &[&str]) -> Vec<Vec<u8>> {
    let mut lines = Vec::new();
    for s in text.iter() {
        lines.push(s.as_bytes().to_vec());
    }
    lines
}

#[test]
fn parse_diagram_reads_columns_bottom_up() {
    let lines = to_lines(&["    [D]    ", "[N] [C]    ", "[Z] [M] [P]", " 1   2   3 "]);
    let (stacks, used) = parse_diagram(&lines);
    assert_eq!(used, 3);
    assert_eq!(
        stacks,
        vec![Vec::new(), b"ZN".to_vec(), b"MCD".to_vec(), b"P".to_vec()]
    );
}

#[test]
fn parse_diagram_keeps_differing_heights() {
    // No column is padded or truncated: each stack is exactly as tall as
    // the number of bracketed labels in its column.
    let lines = to_lines(&["[A]        ", "[B] [C]    ", "[D] [E] [F]", " 1   2   3 "]);
    let (stacks, used) = parse_diagram(&lines);
    assert_eq!(used, 3);
    assert_eq!(stacks[1], b"DBA".to_vec());
    assert_eq!(stacks[2], b"EC".to_vec());
    assert_eq!(stacks[3], b"F".to_vec());
    assert_eq!(stacks.len(), 4);
}

#[test]
fn footer_line_terminates_the_diagram() {
    // The numeric footer holds no bracketed label, so it ends the diagram
    // section and contributes no stack content.
    let lines = to_lines(&["[A]", " 1 ", "[B]"]);
    let (stacks, used) = parse_diagram(&lines);
    assert_eq!(used, 1);
    assert_eq!(stacks, vec![Vec::new(), b"A".to_vec()]);
}

#[test]
fn empty_diagram_yields_only_the_sentinel() {
    let lines = to_lines(&["no brackets here", "move 1 from 1 to 2"]);
    let (stacks, used) = parse_diagram(&lines);
    assert_eq!(used, 0);
    assert_eq!(stacks, vec![Vec::<u8>::new()]);
}

#[test]
fn any_bracketed_label_counts_as_diagram_content() {
    // Digits and underscores are word characters too.
    let lines = to_lines(&["[1] [_] [x]"]);
    let (stacks, used) = parse_diagram(&lines);
    assert_eq!(used, 1);
    assert_eq!(
        stacks,
        vec![Vec::new(), b"1".to_vec(), b"_".to_vec(), b"x".to_vec()]
    );
}

#[test]
fn parse_move_line_reads_the_three_numbers() {
    let line = b"move 12 from 3 to 4".to_vec();
    assert_eq!(
        parse_move_line(&line),
        Ok(Some(Instruction { count: 12, from: 3, to: 4 }))
    );
}

#[test]
fn parse_move_line_skips_non_matching_lines() {
    assert_eq!(parse_move_line(&b"".to_vec()), Ok(None));
    assert_eq!(parse_move_line(&b"not an instruction".to_vec()), Ok(None));
    assert_eq!(parse_move_line(&b"move x from 1 to 2".to_vec()), Ok(None));
    assert_eq!(parse_move_line(&b"move 1 from 2".to_vec()), Ok(None));
    assert_eq!(parse_move_line(&b"Move 1 from 2 to 3".to_vec()), Ok(None));
}

#[test]
fn parse_move_line_matches_anywhere_in_the_line() {
    let line = b"xx move 2 from 1 to 3 yy".to_vec();
    assert_eq!(
        parse_move_line(&line),
        Ok(Some(Instruction { count: 2, from: 1, to: 3 }))
    );
}

#[test]
fn parse_move_line_takes_the_leftmost_match() {
    let line = b"move 1 from 2 to 3 move 4 from 5 to 6".to_vec();
    assert_eq!(
        parse_move_line(&line),
        Ok(Some(Instruction { count: 1, from: 2, to: 3 }))
    );
}

#[test]
fn parse_move_line_reports_oversized_numbers() {
    let line = b"move 99999999999999999999999999 from 1 to 2".to_vec();
    assert_eq!(parse_move_line(&line), Err(PlanError::NumberTooLarge));
    let line = b"move 1 from 99999999999999999999999999 to 2".to_vec();
    assert_eq!(parse_move_line(&line), Err(PlanError::NumberTooLarge));
}

#[test]
fn parse_move_line_accepts_the_largest_count() {
    let line = format!("move {} from 1 to 2", usize::MAX);
    assert_eq!(
        parse_move_line(&line.as_bytes().to_vec()),
        Ok(Some(Instruction { count: usize::MAX, from: 1, to: 2 }))
    );
}
