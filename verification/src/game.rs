//! The game engine proper: board, phases, messages, and the rules that
//! produce and apply them.

use vstd::prelude::*;

verus! {

/// One of the two symbols that take turns on the board.
#[derive(Debug, Clone, Copy, PartialEq, Eq, Hash, Structural)]
pub enum Player {
    Nought,
    Cross,
}

/// The player who moves after `p`.
pub open spec fn opponent(p: Player) -> Player {
    match p {
        Player::Nought => Player::Cross,
        Player::Cross => Player::Nought,
    }
}

/// The finite-state-machine state of a game.
#[derive(Debug, Clone, Copy, PartialEq, Eq, Structural)]
pub enum Phase {
    PlayersTurn(Player),
    CheckWin(Player),
    PlayerWon(Player),
    Draw,
}

/// A phase from which the game produces no further actions.
pub open spec fn terminal(phase: Phase) -> bool {
    phase matches Phase::PlayerWon(_) || phase matches Phase::Draw
}

/// One of the nine cells of the board.
#[derive(Debug, Clone, Copy, PartialEq, Eq, Structural)]
pub enum Position {
    TopLeft,
    TopCenter,
    TopRight,
    CenterLeft,
    Center,
    CenterRight,
    BottomLeft,
    BottomCenter,
    BottomRight,
}

impl Position {
    /// The board index of this cell, row by row from the top left.
    pub open spec fn index_spec(self) -> int {
        match self {
            Position::TopLeft => 0,
            Position::TopCenter => 1,
            Position::TopRight => 2,
            Position::CenterLeft => 3,
            Position::Center => 4,
            Position::CenterRight => 5,
            Position::BottomLeft => 6,
            Position::BottomCenter => 7,
            Position::BottomRight => 8,
        }
    }

    /// Maps this cell to its board index; a bijection onto 0..9.
    pub fn index(&self) -> (i: usize)
        ensures
            i == self.index_spec(),
            i < 9,
    {
        match *self {
            Position::TopLeft => 0,
            Position::TopCenter => 1,
            Position::TopRight => 2,
            Position::CenterLeft => 3,
            Position::Center => 4,
            Position::CenterRight => 5,
            Position::BottomLeft => 6,
            Position::BottomCenter => 7,
            Position::BottomRight => 8,
        }
    }
}

/// The cell whose board index is `i`; the inverse of `Position::index_spec`.
pub open spec fn position_at(i: int) -> Position {
    if i == 0 {
        Position::TopLeft
    } else if i == 1 {
        Position::TopCenter
    } else if i == 2 {
        Position::TopRight
    } else if i == 3 {
        Position::CenterLeft
    } else if i == 4 {
        Position::Center
    } else if i == 5 {
        Position::CenterRight
    } else if i == 6 {
        Position::BottomLeft
    } else if i == 7 {
        Position::BottomCenter
    } else {
        Position::BottomRight
    }
}

/// `position_at` and `index_spec` are mutually inverse.
pub proof fn lemma_position_index_bijective(p: Position, i: int)
    requires
        0 <= i < 9,
    ensures
        position_at(p.index_spec()) == p,
        position_at(i).index_spec() == i,
{
}

/// Executable counterpart of `position_at`.
pub fn position_from_index(i: usize) -> (p: Position)
    requires
        i < 9,
    ensures
        p == position_at(i as int),
        p.index_spec() == i,
{
    match i {
        0 => Position::TopLeft,
        1 => Position::TopCenter,
        2 => Position::TopRight,
        3 => Position::CenterLeft,
        4 => Position::Center,
        5 => Position::CenterRight,
        6 => Position::BottomLeft,
        7 => Position::BottomCenter,
        _ => Position::BottomRight,
    }
}

/// A request for a move: the asking player and the cells currently open to
/// choose from, in board order.
#[derive(Debug, Clone, PartialEq, Eq)]
pub struct Question(pub Player, pub Vec<Position>);

/// A chosen cell, produced in response to a `Question`.
#[derive(Debug, Clone, Copy, PartialEq, Eq, Structural)]
pub struct Answer(pub Position);

impl Question {
    /// An answer is acceptable exactly when its cell is among the offered
    /// choices.
    pub fn validate(&self, answer: &Answer) -> (r: bool)
        ensures
            r == self.1@.contains(answer.0),
    {
        let mut i: usize = 0;
        while i < self.1.len()
            invariant
                i <= self.1@.len(),
                forall|j: int| 0 <= j < i ==> self.1@[j] != answer.0,
            decreases self.1@.len() - i,
        {
            let p = self.1[i];
            if p == answer.0 {
                proof {
                    assert(self.1@[i as int] == answer.0);
                }
                return true;
            }
            i += 1;
        }
        false
    }
}

/// An immutable event: something that happened or is being requested.
#[derive(Debug, Clone, PartialEq)]
pub enum Message {
    Move(Player, Position),
    Turn(Player),
    Win(Player),
    Draw,
    Question(Question),
    AcceptAnswer,
    RejectAnswer(Question, Answer),
}

/// The mathematical state of a game: phase, the nine cells, and the pending
/// answer, if any.
pub struct GameView {
    pub phase: Phase,
    pub board: Seq<Option<Player>>,
    pub answer: Option<Answer>,
}

impl GameView {
    /// The board always holds exactly nine cells.
    pub open spec fn wf(self) -> bool {
        self.board.len() == 9
    }
}

/// The board of a fresh game: nine empty cells.
pub open spec fn empty_board() -> Seq<Option<Player>> {
    Seq::new(9, |i: int| None::<Player>)
}

/// The state of a fresh game: empty board, Nought to move, no pending
/// answer.
pub open spec fn fresh_game() -> GameView {
    GameView {
        phase: Phase::PlayersTurn(Player::Nought),
        board: empty_board(),
        answer: None,
    }
}

/// The open cells among the first `k` board indices, in board order.
pub open spec fn empties_upto(board: Seq<Option<Player>>, k: int) -> Seq<Position>
    decreases k,
{
    if k <= 0 {
        Seq::empty()
    } else if board[k - 1] is None {
        empties_upto(board, k - 1).push(position_at(k - 1))
    } else {
        empties_upto(board, k - 1)
    }
}

/// All open cells of the board, in board order.
pub open spec fn empties(board: Seq<Option<Player>>) -> Seq<Position> {
    empties_upto(board, 9)
}

/// A cell is listed among the open cells up to `k` exactly when its index is
/// below `k` and it is unoccupied.
pub proof fn lemma_empties_upto_contains(board: Seq<Option<Player>>, k: int, p: Position)
    requires
        board.len() == 9,
        0 <= k <= 9,
    ensures
        empties_upto(board, k).contains(p) <==> (p.index_spec() < k && board[p.index_spec()]
            is None),
    decreases k,
{
    if k > 0 {
        lemma_empties_upto_contains(board, k - 1, p);
        let prev = empties_upto(board, k - 1);
        if board[k - 1] is None {
            let cur = prev.push(position_at(k - 1));
            assert forall|q: Position| cur.contains(q) implies (prev.contains(q) || q
                == position_at(k - 1)) by {
                let idx = choose|idx: int| 0 <= idx < cur.len() && cur[idx] == q;
                if idx < prev.len() {
                    assert(prev[idx] == q);
                }
            }
            if prev.contains(p) || p == position_at(k - 1) {
                if p == position_at(k - 1) {
                    assert(cur[cur.len() - 1] == p);
                } else {
                    let idx = choose|idx: int| 0 <= idx < prev.len() && prev[idx] == p;
                    assert(cur[idx] == p);
                }
            }
            lemma_position_index_bijective(p, k - 1);
        }
    }
}

/// A cell is listed among the open cells exactly when it is unoccupied.
pub proof fn lemma_empties_contains(board: Seq<Option<Player>>, p: Position)
    requires
        board.len() == 9,
    ensures
        empties(board).contains(p) <==> board[p.index_spec()] is None,
{
    lemma_empties_upto_contains(board, 9, p);
}

/// Occupying an open cell removes exactly one entry from the open-cell list.
pub proof fn lemma_empties_update(board: Seq<Option<Player>>, i: int, p: Player, k: int)
    requires
        board.len() == 9,
        0 <= i < 9,
        board[i] is None,
        0 <= k <= 9,
    ensures
        empties_upto(board.update(i, Some(p)), k).len() == empties_upto(board, k).len() - (
        if i < k {
            1int
        } else {
            0int
        }),
    decreases k,
{
    if k > 0 {
        lemma_empties_update(board, i, p, k - 1);
    }
}

/// The board is empty on the first `k` indices of a fresh game, so the
/// open-cell list up to `k` has length `k`.
pub proof fn lemma_empty_board_empties(k: int)
    requires
        0 <= k <= 9,
    ensures
        empties_upto(empty_board(), k).len() == k,
    decreases k,
{
    if k > 0 {
        lemma_empty_board_empties(k - 1);
    }
}

/// The three board indices of winning line `k`: rows, then columns, then the
/// two diagonals.
pub open spec fn line_indices(k: int) -> (int, int, int) {
    if k == 0 {
        (0, 1, 2)
    } else if k == 1 {
        (3, 4, 5)
    } else if k == 2 {
        (6, 7, 8)
    } else if k == 3 {
        (0, 3, 6)
    } else if k == 4 {
        (1, 4, 7)
    } else if k == 5 {
        (2, 5, 8)
    } else if k == 6 {
        (0, 4, 8)
    } else {
        (2, 4, 6)
    }
}

/// The player holding all three cells of line `k`, if any.
pub open spec fn line_owner(board: Seq<Option<Player>>, k: int) -> Option<Player> {
    if board[line_indices(k).0] is Some && board[line_indices(k).0] == board[line_indices(k).1]
        && board[line_indices(k).1] == board[line_indices(k).2] {
        board[line_indices(k).0]
    } else {
        None
    }
}

/// `p` has three in a row somewhere on the board.
pub open spec fn wins(board: Seq<Option<Player>>, p: Player) -> bool {
    exists|k: int| 0 <= k < 8 && #[trigger] line_owner(board, k) == Some(p)
}

/// The winner found by scanning lines `0..k` and keeping the last match.
pub open spec fn winner_upto(board: Seq<Option<Player>>, k: int) -> Option<Player>
    decreases k,
{
    if k <= 0 {
        None
    } else if line_owner(board, k - 1) is Some {
        line_owner(board, k - 1)
    } else {
        winner_upto(board, k - 1)
    }
}

/// The winner of the board, if any: the owner of the last fully-owned line in
/// the fixed scan order.
pub open spec fn winner(board: Seq<Option<Player>>) -> Option<Player> {
    winner_upto(board, 8)
}

/// The batch of messages the engine produces from state `v` is exactly `r`.
pub open spec fn emits(v: GameView, r: Seq<Message>) -> bool {
    match v.phase {
        Phase::PlayersTurn(player) => match v.answer {
            None => r.len() == 1 && (r[0] matches Message::Question(q) && q.0 == player && q.1@
                == empties(v.board)),
            Some(a) => if empties(v.board).contains(a.0) {
                r.len() == 2 && r[0] == Message::AcceptAnswer && r[1] == Message::Move(
                    player,
                    a.0,
                )
            } else {
                r.len() == 1 && (r[0] matches Message::RejectAnswer(q, rejected) && q.0 == player
                    && q.1@ == empties(v.board) && rejected == a)
            },
        },
        Phase::CheckWin(player) => r.len() == 1 && (match winner(v.board) {
            Some(w) => r[0] == Message::Win(w),
            None => if empties(v.board).len() == 0 {
                r[0] == Message::Draw
            } else {
                r[0] == Message::Turn(opponent(player))
            },
        }),
        Phase::PlayerWon(_) => r.len() == 0,
        Phase::Draw => r.len() == 0,
    }
}

/// The state reached by applying one message to state `v`.
pub open spec fn apply(v: GameView, m: Message) -> GameView {
    match m {
        Message::Move(p, pos) => GameView {
            phase: Phase::CheckWin(p),
            board: v.board.update(pos.index_spec(), Some(p)),
            answer: v.answer,
        },
        Message::Win(p) => GameView { phase: Phase::PlayerWon(p), ..v },
        Message::Draw => GameView { phase: Phase::Draw, ..v },
        Message::Turn(p) => GameView { phase: Phase::PlayersTurn(p), ..v },
        Message::Question(_) => v,
        Message::AcceptAnswer => GameView { answer: None, ..v },
        Message::RejectAnswer(_, _) => GameView { answer: None, ..v },
    }
}

/// The state reached by applying a sequence of messages in order.
pub open spec fn apply_all(v: GameView, ms: Seq<Message>) -> GameView
    decreases ms.len(),
{
    if ms.len() <= 0 {
        v
    } else {
        apply_all(apply(v, ms[0]), ms.drop_first())
    }
}

/// Applying one more message extends a fold over the sequence.
pub proof fn lemma_apply_all_push(v: GameView, ms: Seq<Message>, m: Message)
    ensures
        apply_all(v, ms.push(m)) == apply(apply_all(v, ms), m),
    decreases ms.len(),
{
    reveal_with_fuel(apply_all, 4);
    if ms.len() == 0 {
        assert(ms.push(m)[0] == m);
        assert(ms.push(m).drop_first() =~= Seq::<Message>::empty());
    } else {
        assert(ms.push(m)[0] == ms[0]);
        assert(ms.push(m).drop_first() =~= ms.drop_first().push(m));
        lemma_apply_all_push(apply(v, ms[0]), ms.drop_first(), m);
    }
}

/// Every prefix of an emitted batch leads to a well-formed state, and a
/// `Move` in the batch always targets a cell that is still open when it is
/// applied.
pub proof fn lemma_emits_step(v: GameView, ms: Seq<Message>, i: int)
    requires
        v.wf(),
        emits(v, ms),
        0 <= i < ms.len(),
    ensures
        apply_all(v, ms.take(i)).wf(),
        ms[i] matches Message::Move(p, pos) ==> apply_all(v, ms.take(i)).board[pos.index_spec()]
            is None,
{
    reveal_with_fuel(apply_all, 4);
    assert(ms.take(0) =~= Seq::<Message>::empty());
    match v.phase {
        Phase::PlayersTurn(player) => {
            match v.answer {
                Some(a) => {
                    if empties(v.board).contains(a.0) {
                        lemma_empties_contains(v.board, a.0);
                        assert(ms.take(1).drop_first() =~= Seq::<Message>::empty());
                        assert(ms.take(1)[0] == ms[0]);
                        assert(apply_all(v, ms.take(1)) == apply(v, ms[0]));
                    }
                },
                None => {},
            }
        },
        _ => {},
    }
}

/// The rank of a state in the engine's progress order; used to show that
/// every driver loop terminates.
pub open spec fn pending_rank(v: GameView) -> int {
    match v.phase {
        Phase::PlayersTurn(_) => match v.answer {
            None => 1,
            Some(a) => if empties(v.board).contains(a.0) {
                0
            } else {
                2
            },
        },
        Phase::CheckWin(_) => 3,
        Phase::PlayerWon(_) => 0,
        Phase::Draw => 0,
    }
}

/// A batch that ends by posing a question.
pub open spec fn poses_question(ms: Seq<Message>) -> bool {
    ms.len() > 0 && ms.last() matches Message::Question(_)
}

/// How many messages the engine emits from state `v`; zero exactly in the
/// terminal phases.
pub open spec fn batch_len(v: GameView) -> int {
    match v.phase {
        Phase::PlayersTurn(_) => match v.answer {
            None => 1,
            Some(a) => if empties(v.board).contains(a.0) {
                2
            } else {
                1
            },
        },
        Phase::CheckWin(_) => 1,
        Phase::PlayerWon(_) => 0,
        Phase::Draw => 0,
    }
}

/// `log` is a concatenation of whole batches that the engine itself emits,
/// starting from state `v`: each batch satisfies `emits` of the state the
/// previous batches fold to. This is what ties a driver's log to the
/// engine's own rules.
pub open spec fn batches(v: GameView, log: Seq<Message>) -> bool
    decreases log.len(),
{
    if log.len() == 0 {
        true
    } else {
        batch_len(v) >= 1 && log.len() >= batch_len(v) && emits(v, log.take(batch_len(v)))
            && batches(apply_all(v, log.take(batch_len(v))), log.skip(batch_len(v)))
    }
}

/// A batch the engine emits has exactly the length `batch_len` gives.
pub proof fn lemma_emits_len(v: GameView, ms: Seq<Message>)
    requires
        emits(v, ms),
    ensures
        ms.len() == batch_len(v),
{
}

/// Extending a well-formed log by one more emitted batch keeps it a
/// concatenation of emitted batches.
pub proof fn lemma_batches_snoc(v: GameView, log: Seq<Message>, batch: Seq<Message>)
    requires
        batches(v, log),
        emits(apply_all(v, log), batch),
        batch.len() >= 1,
    ensures
        batches(v, log + batch),
    decreases log.len(),
{
    reveal_with_fuel(apply_all, 2);
    reveal_with_fuel(batches, 3);
    if log.len() == 0 {
        assert(log + batch =~= batch);
        lemma_emits_len(v, batch);
        assert((log + batch).take(batch_len(v)) =~= batch);
        assert((log + batch).skip(batch_len(v)) =~= Seq::<Message>::empty());
    } else {
        let n = batch_len(v);
        assert(log.take(n) + log.skip(n) =~= log);
        lemma_apply_all_concat(v, log.take(n), log.skip(n));
        lemma_batches_snoc(apply_all(v, log.take(n)), log.skip(n), batch);
        assert((log + batch).take(n) =~= log.take(n));
        assert((log + batch).skip(n) =~= log.skip(n) + batch);
    }
}

/// Applying a full emitted batch either leaves the engine waiting for an
/// answer (question batch, state unchanged) or strictly shrinks the measure
/// (open cells, then rank) that bounds the rest of the game.
pub proof fn lemma_batch_outcome(v: GameView, ms: Seq<Message>)
    requires
        v.wf(),
        emits(v, ms),
        !terminal(v.phase),
    ensures
        apply_all(v, ms).wf(),
        poses_question(ms) ==> (apply_all(v, ms) == v && (v.phase matches Phase::PlayersTurn(_))
            && v.answer is None),
        !poses_question(ms) ==> (empties(apply_all(v, ms).board).len() < empties(v.board).len() || (
        empties(apply_all(v, ms).board).len() == empties(v.board).len() && pending_rank(
            apply_all(v, ms),
        ) < pending_rank(v))),
{
    reveal_with_fuel(apply_all, 4);
    match v.phase {
        Phase::PlayersTurn(player) => {
            match v.answer {
                None => {
                    assert(ms.drop_first() =~= Seq::<Message>::empty());
                    assert(apply_all(v, ms) == apply(v, ms[0]));
                    assert(ms.last() == ms[0]);
                },
                Some(a) => {
                    if empties(v.board).contains(a.0) {
                        lemma_empties_contains(v.board, a.0);
                        let v1 = apply(v, ms[0]);
                        let v2 = apply(v1, ms[1]);
                        assert(ms.drop_first().drop_first() =~= Seq::<Message>::empty());
                        assert(ms.drop_first()[0] == ms[1]);
                        assert(apply_all(v, ms) == v2);
                        lemma_empties_update(v.board, a.0.index_spec(), player, 9);
                        assert(ms.last() == ms[1]);
                    } else {
                        assert(ms.drop_first() =~= Seq::<Message>::empty());
                        assert(apply_all(v, ms) == apply(v, ms[0]));
                        assert(ms.last() == ms[0]);
                    }
                },
            }
        },
        Phase::CheckWin(_) => {
            assert(ms.drop_first() =~= Seq::<Message>::empty());
            assert(apply_all(v, ms) == apply(v, ms[0]));
            assert(ms.last() == ms[0]);
        },
        _ => {},
    }
}

/// The exact state reached by applying a full emitted batch, written out
/// case by case.
pub proof fn lemma_batch_result(v: GameView, ms: Seq<Message>)
    requires
        v.wf(),
        emits(v, ms),
        !terminal(v.phase),
    ensures
        v.phase matches Phase::PlayersTurn(player) ==> (match v.answer {
            None => apply_all(v, ms) == v,
            Some(a) => if empties(v.board).contains(a.0) {
                apply_all(v, ms) == (GameView {
                    phase: Phase::CheckWin(player),
                    board: v.board.update(a.0.index_spec(), Some(player)),
                    answer: None,
                })
            } else {
                apply_all(v, ms) == (GameView { answer: None, ..v })
            },
        }),
        v.phase matches Phase::CheckWin(player) ==> apply_all(v, ms) == (GameView {
            phase: match winner(v.board) {
                Some(w) => Phase::PlayerWon(w),
                None => if empties(v.board).len() == 0 {
                    Phase::Draw
                } else {
                    Phase::PlayersTurn(opponent(player))
                },
            },
            ..v
        }),
{
    reveal_with_fuel(apply_all, 4);
    match v.phase {
        Phase::PlayersTurn(player) => {
            match v.answer {
                None => {
                    assert(ms.drop_first() =~= Seq::<Message>::empty());
                },
                Some(a) => {
                    if empties(v.board).contains(a.0) {
                        lemma_empties_contains(v.board, a.0);
                        assert(ms.drop_first().drop_first() =~= Seq::<Message>::empty());
                        assert(ms.drop_first()[0] == ms[1]);
                    } else {
                        assert(ms.drop_first() =~= Seq::<Message>::empty());
                    }
                },
            }
        },
        Phase::CheckWin(_) => {
            assert(ms.drop_first() =~= Seq::<Message>::empty());
        },
        _ => {},
    }
}

/// The text shown for each phase.
pub open spec fn status_text(phase: Phase) -> Seq<char> {
    match phase {
        Phase::PlayersTurn(Player::Nought) => "Nought's turn"@,
        Phase::PlayersTurn(Player::Cross) => "Cross's turn"@,
        Phase::CheckWin(_) => "Checking for a winner"@,
        Phase::PlayerWon(Player::Nought) => "Nought won"@,
        Phase::PlayerWon(Player::Cross) => "Cross won"@,
        Phase::Draw => "It's a draw"@,
    }
}

/// A game: one phase, one board of nine cells, and at most one pending
/// answer.
#[derive(Debug)]
pub struct Game {
    pub phase: Phase,
    pub board: Vec<Option<Player>>,
    pub answer: Option<Answer>,
}

impl View for Game {
    type V = GameView;

    open spec fn view(&self) -> GameView {
        GameView { phase: self.phase, board: self.board@, answer: self.answer }
    }
}

impl Game {
    /// The board always holds exactly nine cells.
    pub open spec fn wf(&self) -> bool {
        self@.wf()
    }

    /// A fresh game: empty board, Nought to move, no pending answer.
    pub fn new() -> (g: Game)
        ensures
            g.wf(),
            g@ == fresh_game(),
    {
        let mut board: Vec<Option<Player>> = Vec::new();
        let mut i: usize = 0;
        while i < 9
            invariant
                i <= 9,
                board@.len() == i,
                forall|j: int| 0 <= j < i ==> board@[j] is None,
            decreases 9 - i,
        {
            board.push(None);
            i += 1;
        }
        proof {
            assert(board@ =~= empty_board());
        }
        Game { phase: Phase::PlayersTurn(Player::Nought), board, answer: None }
    }

    /// The cell at `position`.
    pub fn cell_at(&self, position: Position) -> (c: Option<Player>)
        requires
            self.wf(),
        ensures
            c == self@.board[position.index_spec()],
    {
        self.board[position.index()]
    }

    /// Records `answer` as the pending answer to the current question,
    /// replacing any answer already pending.
    pub fn set_answer(&mut self, answer: Answer)
        ensures
            final(self)@ == (GameView { answer: Some(answer), ..old(self)@ }),
    {
        self.answer = Some(answer);
    }

    /// A human-readable summary of the current phase, for a rendering layer.
    pub fn status_message(&self) -> (r: &'static str)
        ensures
            r@ == status_text(self@.phase),
    {
        match self.phase {
            Phase::PlayersTurn(Player::Nought) => "Nought's turn",
            Phase::PlayersTurn(Player::Cross) => "Cross's turn",
            Phase::CheckWin(_) => "Checking for a winner",
            Phase::PlayerWon(Player::Nought) => "Nought won",
            Phase::PlayerWon(Player::Cross) => "Cross won",
            Phase::Draw => "It's a draw",
        }
    }

    /// Whether the game has not yet reached a terminal phase.
    pub fn is_running(&self) -> (r: bool)
        ensures
            r == !terminal(self@.phase),
    {
        match self.phase {
            Phase::PlayerWon(_) => false,
            Phase::Draw => false,
            _ => true,
        }
    }

    /// The open cells of the board, in board order.
    pub fn empty_positions(&self) -> (v: Vec<Position>)
        requires
            self.wf(),
        ensures
            v@ == empties(self@.board),
    {
        let mut v: Vec<Position> = Vec::new();
        let mut i: usize = 0;
        while i < 9
            invariant
                self.wf(),
                i <= 9,
                v@ == empties_upto(self@.board, i as int),
            decreases 9 - i,
        {
            if self.board[i].is_none() {
                v.push(position_from_index(i));
            }
            i += 1;
        }
        v
    }

    /// Scans the eight lines in order and returns the owner of the last fully
    /// owned one, if any.
    fn find_winner(&self) -> (w: Option<Player>)
        requires
            self.wf(),
        ensures
            w == winner(self@.board),
    {
        let mut w: Option<Player> = None;
        let mut k: usize = 0;
        while k < 8
            invariant
                self.wf(),
                k <= 8,
                w == winner_upto(self@.board, k as int),
            decreases 8 - k,
        {
            let (p0, p1, p2) = line_positions(k);
            let a = self.cell_at(p0);
            let b = self.cell_at(p1);
            let c = self.cell_at(p2);
            match (a, b, c) {
                (Some(x), Some(y), Some(z)) => {
                    if x == y && x == z {
                        w = Some(x);
                    }
                },
                _ => {},
            }
            k += 1;
        }
        w
    }

    /// Emits the question, or vets the pending answer against it: accepted
    /// answers are returned for the caller to turn into a move, everything
    /// else leaves the turn to be retried.
    fn ask(&self, question: Question, msg: &mut Vec<Message>) -> (r: Option<Answer>)
        ensures
            self@.answer is None ==> (r is None && final(msg)@ == old(msg)@.push(
                Message::Question(question),
            )),
            self@.answer matches Some(a) ==> ((question.1@.contains(a.0) ==> (r == Some(a)
                && final(msg)@ == old(msg)@.push(Message::AcceptAnswer))) && (!question.1@.contains(
                a.0,
            ) ==> (r is None && final(msg)@ == old(msg)@.push(
                Message::RejectAnswer(question, a),
            )))),
    {
        match &self.answer {
            Some(answer) => {
                if question.validate(answer) {
                    msg.push(Message::AcceptAnswer);
                    Some(*answer)
                } else {
                    let chosen = *answer;
                    msg.push(Message::RejectAnswer(question, chosen));
                    None
                }
            },
            None => {
                msg.push(Message::Question(question));
                None
            },
        }
    }

    /// The batch of messages to apply next: a pure function of phase, board,
    /// and pending answer, as described by `emits`.
    pub fn next_actions(&self) -> (r: Vec<Message>)
        requires
            self.wf(),
        ensures
            emits(self@, r@),
    {
        let mut msg: Vec<Message> = Vec::new();
        match self.phase {
            Phase::PlayersTurn(player) => {
                let choices = self.empty_positions();
                let question = Question(player, choices);
                if let Some(a) = self.ask(question, &mut msg) {
                    msg.push(Message::Move(player, a.0));
                }
            },
            Phase::PlayerWon(_) => {},
            Phase::Draw => {},
            Phase::CheckWin(player) => {
                let w = self.find_winner();
                match w {
                    Some(p) => {
                        msg.push(Message::Win(p));
                    },
                    None => {
                        let open_cells = self.empty_positions();
                        if open_cells.len() == 0 {
                            msg.push(Message::Draw);
                        } else {
                            let next = match player {
                                Player::Nought => Player::Cross,
                                Player::Cross => Player::Nought,
                            };
                            msg.push(Message::Turn(next));
                        }
                    },
                }
            },
        }
        msg
    }

    /// Applies exactly one message, as described by `apply`. A `Move` must
    /// target an open cell: the engine only produces one once the question
    /// mechanism has confirmed the cell empty.
    pub fn handle(&mut self, msg: &Message)
        requires
            old(self).wf(),
            *msg matches Message::Move(p, pos) ==> old(self)@.board[pos.index_spec()] is None,
        ensures
            final(self).wf(),
            final(self)@ == apply(old(self)@, *msg),
    {
        match msg {
            Message::Move(player, position) => {
                let i = position.index();
                self.board[i] = Some(*player);
                self.phase = Phase::CheckWin(*player);
            },
            Message::Win(player) => {
                self.phase = Phase::PlayerWon(*player);
            },
            Message::Draw => {
                self.phase = Phase::Draw;
            },
            Message::Turn(player) => {
                self.phase = Phase::PlayersTurn(*player);
            },
            Message::Question(_) => {},
            Message::AcceptAnswer => {
                self.answer = None;
            },
            Message::RejectAnswer(_, _) => {
                self.answer = None;
            },
        }
    }

    /// Produces one batch of messages, applies each in order, and returns
    /// the batch.
    pub fn step(&mut self) -> (batch: Vec<Message>)
        requires
            old(self).wf(),
        ensures
            final(self).wf(),
            emits(old(self)@, batch@),
            final(self)@ == apply_all(old(self)@, batch@),
    {
        let ghost v0 = self@;
        let batch = self.next_actions();
        let mut i: usize = 0;
        proof {
            assert(batch@.take(0) =~= Seq::<Message>::empty());
        }
        while i < batch.len()
            invariant
                self.wf(),
                i <= batch@.len(),
                v0.wf(),
                emits(v0, batch@),
                self@ == apply_all(v0, batch@.take(i as int)),
            decreases batch@.len() - i,
        {
            proof {
                lemma_emits_step(v0, batch@, i as int);
                lemma_apply_all_push(v0, batch@.take(i as int), batch@[i as int]);
                assert(batch@.take(i as int).push(batch@[i as int]) =~= batch@.take(i as int + 1));
            }
            let msg = &batch[i];
            self.handle(msg);
            i += 1;
        }
        proof {
            assert(batch@.take(batch@.len() as int) =~= batch@);
        }
        batch
    }

    /// Drives the game forward until it either poses a question (and so must
    /// wait for an answer) or reaches a terminal phase; returns every message
    /// applied along the way, in order.
    pub fn run_until_question(&mut self) -> (log: Vec<Message>)
        requires
            old(self).wf(),
        ensures
            final(self).wf(),
            batches(old(self)@, log@),
            final(self)@ == apply_all(old(self)@, log@),
            terminal(final(self)@.phase) || (final(self)@.phase matches Phase::PlayersTurn(_)
                && final(self)@.answer is None),
    {
        let ghost v0 = self@;
        let mut log: Vec<Message> = Vec::new();
        proof {
            assert(log@ =~= Seq::<Message>::empty());
        }
        while self.is_running()
            invariant
                self.wf(),
                v0.wf(),
                batches(v0, log@),
                self@ == apply_all(v0, log@),
            ensures
                self.wf(),
                batches(v0, log@),
                self@ == apply_all(v0, log@),
                terminal(self@.phase) || (self@.phase matches Phase::PlayersTurn(_) && self@.answer
                    is None),
            decreases empties(self@.board).len(), pending_rank(self@),
        {
            let ghost pre = self@;
            let ghost log_before = log@;
            let mut batch = self.step();
            proof {
                lemma_batch_outcome(pre, batch@);
            }
            let stop = poses_question_check(&batch);
            let ghost batch_view = batch@;
            log.append(&mut batch);
            proof {
                lemma_apply_all_concat(v0, log_before, batch_view);
                lemma_batches_snoc(v0, log_before, batch_view);
            }
            if stop {
                break ;
            }
        }
        log
    }
}

/// Whether the batch ends by posing a question.
fn poses_question_check(batch: &Vec<Message>) -> (r: bool)
    ensures
        r == poses_question(batch@),
{
    if batch.len() == 0 {
        false
    } else {
        match &batch[batch.len() - 1] {
            Message::Question(_) => true,
            _ => false,
        }
    }
}

/// Folding a concatenation folds the pieces in order.
pub proof fn lemma_apply_all_concat(v: GameView, xs: Seq<Message>, ys: Seq<Message>)
    ensures
        apply_all(v, xs + ys) == apply_all(apply_all(v, xs), ys),
    decreases xs.len(),
{
    reveal_with_fuel(apply_all, 4);
    if xs.len() == 0 {
        assert(xs + ys =~= ys);
    } else {
        assert((xs + ys)[0] == xs[0]);
        assert((xs + ys).drop_first() =~= xs.drop_first() + ys);
        lemma_apply_all_concat(apply(v, xs[0]), xs.drop_first(), ys);
    }
}

/// The three cells of winning line `k`.
fn line_positions(k: usize) -> (t: (Position, Position, Position))
    requires
        k < 8,
    ensures
        t.0.index_spec() == line_indices(k as int).0,
        t.1.index_spec() == line_indices(k as int).1,
        t.2.index_spec() == line_indices(k as int).2,
{
    match k {
        0 => (Position::TopLeft, Position::TopCenter, Position::TopRight),
        1 => (Position::CenterLeft, Position::Center, Position::CenterRight),
        2 => (Position::BottomLeft, Position::BottomCenter, Position::BottomRight),
        3 => (Position::TopLeft, Position::CenterLeft, Position::BottomLeft),
        4 => (Position::TopCenter, Position::Center, Position::BottomCenter),
        5 => (Position::TopRight, Position::CenterRight, Position::BottomRight),
        6 => (Position::TopLeft, Position::Center, Position::BottomRight),
        _ => (Position::TopRight, Position::Center, Position::BottomLeft),
    }
}

} // verus!
