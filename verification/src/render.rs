//! Pure helpers for a user interface around the engine: mapping cells to
//! display markers and decoding a submitted move form.

use crate::game::{position_from_index, Game, Player, Position};
use vstd::prelude::*;

verus! {

/// The display marker for a cell's content.
pub open spec fn css_class_spec(cell: Option<Player>) -> Seq<char> {
    match cell {
        Some(Player::Cross) => "cross"@,
        Some(Player::Nought) => "nought"@,
        None => ""@,
    }
}

/// The CSS class with which a renderer marks the cell at `position`.
pub fn css_class_for_position(game: &Game, position: Position) -> (r: &'static str)
    requires
        game.wf(),
    ensures
        r@ == css_class_spec(game@.board[position.index_spec()]),
{
    match game.cell_at(position) {
        Some(Player::Cross) => "cross",
        Some(Player::Nought) => "nought",
        None => "",
    }
}

/// Exactly one flag is set, namely the one at index `i`.
pub open spec fn exactly_one_flag(flags: Seq<bool>, i: int) -> bool {
    &&& 0 <= i < flags.len()
    &&& flags[i]
    &&& forall|j: int| 0 <= j < flags.len() && j != i ==> !flags[j]
}

/// Decodes a submitted move form, given one flag per cell in board order:
/// the chosen cell if exactly one flag is set, and nothing otherwise.
pub fn selected_position(flags: &[bool; 9]) -> (r: Option<Position>)
    ensures
        match r {
            Some(p) => exactly_one_flag(flags@, p.index_spec()),
            None => forall|i: int| 0 <= i < 9 ==> !exactly_one_flag(flags@, i),
        },
{
    let mut found: Option<usize> = None;
    let mut i: usize = 0;
    while i < 9
        invariant
            i <= 9,
            flags@.len() == 9,
            match found {
                Some(f) => f < i && flags@[f as int] && forall|j: int|
                    0 <= j < i && j != f ==> !flags@[j],
                None => forall|j: int| 0 <= j < i ==> !flags@[j],
            },
        decreases 9 - i,
    {
        if flags[i] {
            match found {
                Some(f) => {
                    proof {
                        assert forall|c: int| 0 <= c < 9 implies !exactly_one_flag(flags@, c) by {
                            if c != f {
                                assert(flags@[f as int]);
                            } else {
                                assert(flags@[i as int]);
                            }
                        }
                    }
                    return None;
                },
                None => {
                    found = Some(i);
                },
            }
        }
        i += 1;
    }
    match found {
        Some(f) => Some(position_from_index(f)),
        None => None,
    }
}

} // verus!
