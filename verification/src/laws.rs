//! Global laws of the engine, stated over the mathematical model and proved
//! once and for all.

use crate::game::{
    apply, apply_all, emits, empties, fresh_game, lemma_empties_contains, lemma_empties_update,
    lemma_empty_board_empties, line_owner, opponent, winner, winner_upto, wins, GameView, Message,
    Phase, Player, Position,
};
use vstd::prelude::*;

verus! {

/// The state after playing a sequence of moves in order.
pub open spec fn play_all(v: GameView, moves: Seq<(Player, Position)>) -> GameView
    decreases moves.len(),
{
    if moves.len() <= 0 {
        v
    } else {
        play_all(apply(v, Message::Move(moves[0].0, moves[0].1)), moves.drop_first())
    }
}

/// Every move in the sequence targets a cell that is still open when it is
/// played.
pub open spec fn moves_valid(v: GameView, moves: Seq<(Player, Position)>) -> bool
    decreases moves.len(),
{
    moves.len() == 0 || (v.board[moves[0].1.index_spec()] is None && moves_valid(
        apply(v, Message::Move(moves[0].0, moves[0].1)),
        moves.drop_first(),
    ))
}

/// The moves alternate strictly between the two players, `first` moving
/// first.
pub open spec fn alternating(moves: Seq<(Player, Position)>, first: Player) -> bool
    decreases moves.len(),
{
    moves.len() == 0 || (moves[0].0 == first && alternating(moves.drop_first(), opponent(first)))
}

/// Law: under any sequence of valid moves alternating strictly between the
/// two players, the number of open cells drops by exactly one per move — so
/// the board never holds more occupied cells than moves played — and no
/// occupied cell is ever overwritten.
pub proof fn lemma_valid_moves_fill_board(
    v: GameView,
    moves: Seq<(Player, Position)>,
    first: Player,
)
    requires
        v.wf(),
        moves_valid(v, moves),
        alternating(moves, first),
    ensures
        play_all(v, moves).wf(),
        empties(play_all(v, moves).board).len() == empties(v.board).len() - moves.len(),
        forall|i: int|
            0 <= i < 9 && v.board[i] is Some ==> play_all(v, moves).board[i] == v.board[i],
    decreases moves.len(),
{
    if moves.len() > 0 {
        let v1 = apply(v, Message::Move(moves[0].0, moves[0].1));
        lemma_empties_update(v.board, moves[0].1.index_spec(), moves[0].0, 9);
        lemma_valid_moves_fill_board(v1, moves.drop_first(), opponent(first));
        assert forall|i: int|
            0 <= i < 9 && v.board[i] is Some implies play_all(v, moves).board[i]
            == v.board[i] by {
            assert(v1.board[i] == v.board[i]);
            assert(play_all(v1, moves.drop_first()).board[i] == v1.board[i]);
        }
    }
}

/// Law: starting from a fresh game, no alternating sequence of valid moves
/// can be longer than the nine cells of the board; a game driven by agents
/// that always answer validly therefore ends within at most nine accepted
/// moves.
pub proof fn lemma_at_most_nine_moves(moves: Seq<(Player, Position)>, first: Player)
    requires
        moves_valid(fresh_game(), moves),
        alternating(moves, first),
    ensures
        moves.len() <= 9,
{
    lemma_empty_board_empties(9);
    lemma_valid_moves_fill_board(fresh_game(), moves, first);
}

/// Law: a pending answer whose cell is already occupied is always rejected:
/// the engine emits exactly one `RejectAnswer`, and applying it leaves phase
/// and board unchanged, clearing only the pending answer — so the same
/// player is asked again.
pub proof fn lemma_occupied_answer_rejected(v: GameView, ms: Seq<Message>)
    requires
        v.wf(),
        v.phase matches Phase::PlayersTurn(_),
        v.answer matches Some(a) && v.board[a.0.index_spec()] is Some,
        emits(v, ms),
    ensures
        ms.len() == 1,
        ms[0] matches Message::RejectAnswer(_, _),
        apply_all(v, ms).phase == v.phase,
        apply_all(v, ms).board == v.board,
        apply_all(v, ms).answer is None,
{
    reveal_with_fuel(apply_all, 3);
    match v.answer {
        Some(a) => {
            lemma_empties_contains(v.board, a.0);
            assert(ms.drop_first() =~= Seq::<Message>::empty());
        },
        None => {},
    }
}

/// The board index reached by swapping rows and columns: cell (row, column)
/// moves to (column, row).
pub open spec fn transpose_index(i: int) -> int {
    if i == 0 {
        0
    } else if i == 1 {
        3
    } else if i == 2 {
        6
    } else if i == 3 {
        1
    } else if i == 4 {
        4
    } else if i == 5 {
        7
    } else if i == 6 {
        2
    } else if i == 7 {
        5
    } else {
        8
    }
}

/// The board with rows and columns swapped.
pub open spec fn transpose_board(board: Seq<Option<Player>>) -> Seq<Option<Player>> {
    Seq::new(9, |i: int| board[transpose_index(i)])
}

/// The line that line `k` becomes under transposition: rows and columns
/// swap roles, the two diagonals stay in place.
pub open spec fn transpose_line(k: int) -> int {
    if k == 0 {
        3
    } else if k == 1 {
        4
    } else if k == 2 {
        5
    } else if k == 3 {
        0
    } else if k == 4 {
        1
    } else if k == 5 {
        2
    } else {
        k
    }
}

proof fn lemma_wins_transpose_forward(board: Seq<Option<Player>>, p: Player)
    requires
        board.len() == 9,
        wins(board, p),
    ensures
        wins(transpose_board(board), p),
{
    let k = choose|k: int| 0 <= k < 8 && #[trigger] line_owner(board, k) == Some(p);
    let t = transpose_board(board);
    if k == 0 {
        assert(line_owner(t, 3) == Some(p));
    } else if k == 1 {
        assert(line_owner(t, 4) == Some(p));
    } else if k == 2 {
        assert(line_owner(t, 5) == Some(p));
    } else if k == 3 {
        assert(line_owner(t, 0) == Some(p));
    } else if k == 4 {
        assert(line_owner(t, 1) == Some(p));
    } else if k == 5 {
        assert(line_owner(t, 2) == Some(p));
    } else if k == 6 {
        assert(line_owner(t, 6) == Some(p));
    } else {
        assert(line_owner(t, 7) == Some(p));
    }
}

/// Law: win detection is symmetric under board transposition — a player has
/// three in a row on the board exactly when they have three in a row on the
/// transposed board.
pub proof fn lemma_wins_transpose(board: Seq<Option<Player>>, p: Player)
    requires
        board.len() == 9,
    ensures
        wins(board, p) <==> wins(transpose_board(board), p),
{
    if wins(board, p) {
        lemma_wins_transpose_forward(board, p);
    }
    if wins(transpose_board(board), p) {
        lemma_wins_transpose_forward(transpose_board(board), p);
        assert(transpose_board(transpose_board(board)) =~= board) by {
            assert forall|i: int|
                0 <= i < 9 implies transpose_board(transpose_board(board))[i] == board[i] by {
                if i == 0 {
                } else if i == 1 {
                } else if i == 2 {
                } else if i == 3 {
                } else if i == 4 {
                } else if i == 5 {
                } else if i == 6 {
                } else if i == 7 {
                } else {
                }
            }
        }
    }
}

proof fn lemma_winner_upto_detects(board: Seq<Option<Player>>, k: int)
    requires
        0 <= k <= 8,
    ensures
        winner_upto(board, k) matches Some(p) ==> exists|j: int|
            0 <= j < k && #[trigger] line_owner(board, j) == Some(p),
        forall|j: int|
            0 <= j < k ==> (#[trigger] line_owner(board, j) is Some ==> winner_upto(board, k)
                is Some),
    decreases k,
{
    if k > 0 {
        lemma_winner_upto_detects(board, k - 1);
    }
}

/// Law: the winner scan covers all eight winning lines: it reports a winner
/// exactly when some line is fully owned, and any winner it reports really
/// does have three in a row.
pub proof fn lemma_winner_detects(board: Seq<Option<Player>>)
    ensures
        winner(board) matches Some(p) ==> wins(board, p),
        (exists|p: Player| wins(board, p)) <==> winner(board) is Some,
{
    lemma_winner_upto_detects(board, 8);
    if exists|p: Player| wins(board, p) {
        let p = choose|p: Player| wins(board, p);
        let j = choose|j: int| 0 <= j < 8 && #[trigger] line_owner(board, j) == Some(p);
        assert(line_owner(board, j) is Some);
    }
    match winner(board) {
        Some(p) => {
            assert(wins(board, p));
            assert(exists|q: Player| wins(board, q));
        },
        None => {},
    }
}

/// Law: on a board where one player alone has three in a row — every board
/// that can arise in play — the winner scan names exactly that player, and
/// still does after transposing the board.
pub proof fn lemma_sole_winner_named(board: Seq<Option<Player>>, p: Player)
    requires
        board.len() == 9,
        wins(board, p),
        !wins(board, opponent(p)),
    ensures
        winner(board) == Some(p),
        winner(transpose_board(board)) == Some(p),
{
    lemma_winner_detects(board);
    match winner(board) {
        Some(q) => {
            if q != p {
                assert(q == opponent(p));
            }
        },
        None => {},
    }
    lemma_wins_transpose(board, p);
    lemma_wins_transpose(board, opponent(p));
    lemma_winner_detects(transpose_board(board));
    match winner(transpose_board(board)) {
        Some(q) => {
            if q != p {
                assert(q == opponent(p));
            }
        },
        None => {},
    }
}

} // verus!
