//! Plain data exchanged with the editor protocol layer: positions, ranges
//! and text edits, with 0-based lines and UTF-16 columns.

use vstd::prelude::*;

verus! {

/// A cursor position: 0-based line, UTF-16 column.
#[derive(Clone, Copy, Debug, PartialEq, Eq, Structural)]
pub struct Position {
    pub line: usize,
    pub character: usize,
}

/// A half-open span between two positions.
#[derive(Clone, Copy, Debug, PartialEq, Eq, Structural)]
pub struct Range {
    pub start: Position,
    pub end: Position,
}

/// A replacement of the text in `range` by `new_text`.
#[derive(Clone, Debug)]
pub struct TextEdit {
    pub range: Range,
    pub new_text: String,
}

impl Position {
    pub fn new(line: usize, character: usize) -> (r: Position)
        ensures
            r.line == line && r.character == character,
    {
        Position { line, character }
    }
}

impl Range {
    pub fn new(start: Position, end: Position) -> (r: Range)
        ensures
            r.start == start && r.end == end,
    {
        Range { start, end }
    }
}

} // verus!
