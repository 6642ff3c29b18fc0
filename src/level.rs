//! Severity letters: their order and their display colours.

use vstd::prelude::*;

verus! {

/// Rank of a severity letter, most severe first; anything unknown ranks last.
pub open spec fn level_rank(c: char) -> u8 {
    if c == 'E' {
        0
    } else if c == 'W' {
        1
    } else if c == 'I' {
        2
    } else if c == 'D' {
        3
    } else if c == 'V' {
        4
    } else {
        5
    }
}

/// Rank of a severity letter: `E` 0, `W` 1, `I` 2, `D` 3, `V` 4, other 5.
pub fn level_order(c: char) -> (r: u8)
    ensures
        r == level_rank(c),
{
    match c {
        'E' => 0,
        'W' => 1,
        'I' => 2,
        'D' => 3,
        'V' => 4,
        _ => 5,
    }
}

/// Display colour of a severity letter, as red, green and blue.
pub open spec fn level_rgb(c: char) -> (u8, u8, u8) {
    if c == 'E' {
        (255, 100, 100)
    } else if c == 'W' {
        (255, 180, 80)
    } else if c == 'I' {
        (150, 220, 120)
    } else if c == 'D' {
        (120, 180, 255)
    } else if c == 'V' {
        (170, 170, 170)
    } else {
        (255, 255, 255)
    }
}

/// Display colour of a severity letter; unknown levels are white.
pub fn color_for(c: char) -> (r: (u8, u8, u8))
    ensures
        r == level_rgb(c),
{
    match c {
        'E' => (255, 100, 100),
        'W' => (255, 180, 80),
        'I' => (150, 220, 120),
        'D' => (120, 180, 255),
        'V' => (170, 170, 170),
        _ => (255, 255, 255),
    }
}

} // verus!
