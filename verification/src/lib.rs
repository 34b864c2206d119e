//! Replays "move N from A to B" instructions against stacks of labelled
//! crates parsed from a fixed-width text diagram, under one of two transfer
//! policies, and reports the label on top of each stack.

pub mod diagram;
pub mod moves;
pub mod plan;
pub mod stacks;
