//! Character sets for drawing boxes and arrows.
use vstd::prelude::*;

verus! {

/// Box-drawing character sets.
#[derive(Debug)]
pub struct BoxChars {
    pub top_left: char,
    pub top_right: char,
    pub bottom_left: char,
    pub bottom_right: char,
    pub horizontal: char,
    pub vertical: char,
    pub arrow_down: char,
    pub arrow_up: char,
    pub arrow_right: char,
    pub arrow_left: char,
}

impl BoxChars {
    /// The Unicode set: `┌ ┐ └ ┘ ─ │` with `v ^ > <` arrows.
    pub fn unicode() -> (b: Self)
        ensures
            b.top_left == '\u{250C}',
            b.top_right == '\u{2510}',
            b.bottom_left == '\u{2514}',
            b.bottom_right == '\u{2518}',
            b.horizontal == '\u{2500}',
            b.vertical == '\u{2502}',
            b.arrow_down == 'v',
            b.arrow_up == '^',
            b.arrow_right == '>',
            b.arrow_left == '<',
    {
        Self {
            top_left: '\u{250C}',
            top_right: '\u{2510}',
            bottom_left: '\u{2514}',
            bottom_right: '\u{2518}',
            horizontal: '\u{2500}',
            vertical: '\u{2502}',
            arrow_down: 'v',
            arrow_up: '^',
            arrow_right: '>',
            arrow_left: '<',
        }
    }

    /// The ASCII set: `+` corners, `-` and `|` lines, `v ^ > <` arrows.
    pub fn ascii() -> (b: Self)
        ensures
            b.top_left == '+',
            b.top_right == '+',
            b.bottom_left == '+',
            b.bottom_right == '+',
            b.horizontal == '-',
            b.vertical == '|',
            b.arrow_down == 'v',
            b.arrow_up == '^',
            b.arrow_right == '>',
            b.arrow_left == '<',
    {
        Self {
            top_left: '+',
            top_right: '+',
            bottom_left: '+',
            bottom_right: '+',
            horizontal: '-',
            vertical: '|',
            arrow_down: 'v',
            arrow_up: '^',
            arrow_right: '>',
            arrow_left: '<',
        }
    }
}

} // verus!
