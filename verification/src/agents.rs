//! Listeners, agents, and the driver that plays a game to completion.
//!
//! A listener passively observes every applied message; an agent actively
//! resolves a question into an answer. The driver, [`GameLoop`], owns a game,
//! a collection of listeners, and one agent per player, and repeatedly
//! advances the game until it reaches a terminal phase or an agent declines
//! to answer. Its whole outcome is a function of the starting state
//! ([`run_model`]), so identically seeded drivers replay identical games.

use crate::game::{
    apply_all, batch_len, emits, empties, lemma_apply_all_push, lemma_batch_outcome,
    lemma_batch_result, lemma_emits_len, lemma_emits_step, lemma_empties_contains,
    lemma_empties_update, opponent, pending_rank, terminal, winner, Answer, Game, GameView,
    Message, Phase, Player, Position, Question,
};
use std::io::Write;
use vstd::prelude::*;

verus! {

/// A passive observer of applied messages.
///
/// `observed` is the listener's model: the messages it has been shown, in
/// order. Every implementation's `handle` must extend it by exactly the
/// observed message, so a driver can promise that its listeners saw every
/// applied message, each once, in application order.
pub trait Listener {
    /// The messages this listener has observed, in order.
    spec fn observed(&self) -> Seq<Message>;

    /// Observes one message after it has been applied to the game.
    fn handle(&mut self, msg: &Message)
        ensures
            final(self).observed() == old(self).observed().push(*msg),
    ;
}

/// A listener that prints every message to standard output.
pub struct MessagePrinter {
    /// The messages printed so far; tracked only in the proofs.
    pub seen: Ghost<Seq<Message>>,
}

impl MessagePrinter {
    /// A printer that has printed nothing yet.
    pub fn new() -> (p: MessagePrinter)
        ensures
            p.observed() == Seq::<Message>::empty(),
    {
        MessagePrinter { seen: Ghost(Seq::empty()) }
    }
}

impl Listener for MessagePrinter {
    open spec fn observed(&self) -> Seq<Message> {
        self.seen@
    }

    fn handle(&mut self, msg: &Message) {
        print_message(msg);
        proof {
            self.seen@ = self.seen@.push(*msg);
        }
    }
}

/// Relies on std::io::Stdout: writes one line describing the message to
/// standard output; no effect on the rest of the program.
#[verifier::external_body]
fn print_message(msg: &Message) {
    let _ = writeln!(std::io::stdout(), "{:?}", msg);
}

/// A listener that records every message it observes, in order.
pub struct MessageLog {
    /// Run-time clones of the observed messages, for inspection by callers
    /// and tests.
    pub messages: Vec<Message>,
    /// The observed messages themselves; tracked only in the proofs.
    pub seen: Ghost<Seq<Message>>,
}

impl MessageLog {
    /// A log with nothing recorded yet.
    pub fn new() -> (log: MessageLog)
        ensures
            log.observed() == Seq::<Message>::empty(),
            log.messages@.len() == 0,
    {
        MessageLog { messages: Vec::new(), seen: Ghost(Seq::empty()) }
    }
}

impl Listener for MessageLog {
    open spec fn observed(&self) -> Seq<Message> {
        self.seen@
    }

    fn handle(&mut self, msg: &Message) {
        self.messages.push(msg.clone());
        proof {
            self.seen@ = self.seen@.push(*msg);
        }
    }
}

/// An active move source: resolves a question into an answer.
///
/// `answer` is deterministic: the choice (`decide`) and the successor state
/// (`advance`) are functions of the agent's state, the asking player, and
/// the offered choices alone. An agent that cannot or will not answer
/// returns `None`. The `fuel` measure never grows, and it strictly shrinks
/// whenever the agent hands back an answer outside the offered choices
/// (`progress`); this is what lets the driver prove that a game cannot retry
/// invalid answers forever.
pub trait Agent: Sized {
    /// An upper bound on how often this agent may still answer outside the
    /// offered choices.
    spec fn fuel(&self) -> nat;

    /// The answer this agent gives in its current state.
    spec fn decide(&self, asker: Player, choices: Seq<Position>) -> Option<Answer>;

    /// The state this agent moves to after being asked.
    spec fn advance(&self, asker: Player, choices: Seq<Position>) -> Self;

    /// Being asked never raises the fuel, and answering outside the offered
    /// choices strictly lowers it.
    proof fn progress(&self, asker: Player, choices: Seq<Position>)
        ensures
            self.advance(asker, choices).fuel() <= self.fuel(),
            self.decide(asker, choices) matches Some(ans) ==> (choices.contains(ans.0)
                || self.advance(asker, choices).fuel() < self.fuel()),
    ;

    /// Produces an answer to `question`, or declines with `None`.
    fn answer(&mut self, question: &Question) -> (a: Option<Answer>)
        ensures
            a == old(self).decide(question.0, question.1@),
            *final(self) == old(self).advance(question.0, question.1@),
    ;
}

/// The seed after one step of the linear-congruential generator used by
/// [`RandomAgent`].
pub open spec fn lcg_next(seed: u32) -> u32 {
    vstd::wrapping::u32_specs::wrapping_add(
        vstd::wrapping::u32_specs::wrapping_mul(seed, 22695477u32),
        1u32,
    )
}

/// The index a [`RandomAgent`] with stepped seed `seed` picks among `len`
/// candidates.
pub open spec fn lcg_pick(seed: u32, len: int) -> int {
    ((seed >> 16u32) as int) % len
}

/// An agent that picks uniformly pseudo-randomly among the offered choices.
/// Deterministic given its seed, so identically seeded runs replay the same
/// game.
///
/// A question with no choices is a driver error (a question is only posed
/// while an open cell exists); rather than fail on it, the agent declines
/// with `None` — verified code here may not panic — and the driver stops.
pub struct RandomAgent {
    pub random: u32,
}

impl Agent for RandomAgent {
    open spec fn fuel(&self) -> nat {
        0
    }

    open spec fn decide(&self, asker: Player, choices: Seq<Position>) -> Option<Answer> {
        if choices.len() == 0 {
            None
        } else {
            Some(Answer(choices[lcg_pick(lcg_next(self.random), choices.len() as int)]))
        }
    }

    open spec fn advance(&self, asker: Player, choices: Seq<Position>) -> Self {
        RandomAgent { random: lcg_next(self.random) }
    }

    proof fn progress(&self, asker: Player, choices: Seq<Position>) {
        if choices.len() > 0 {
            let picked = lcg_pick(lcg_next(self.random), choices.len() as int);
            assert(choices.contains(choices[picked]));
        }
    }

    fn answer(&mut self, question: &Question) -> (a: Option<Answer>) {
        self.random = self.random.wrapping_mul(22695477).wrapping_add(1);
        if question.1.len() == 0 {
            None
        } else {
            let index = ((self.random >> 16) as usize) % question.1.len();
            let chosen = question.1[index];
            Some(Answer(chosen))
        }
    }
}

/// An agent that replays a fixed script of positions.
///
/// Being asked more often than the script provides for is a test or usage
/// error; rather than fail fatally on it, the agent declines with `None` —
/// verified code here may not panic — and the driver stops with the game
/// left waiting on its question.
pub struct DeterministicAgent {
    pub answers: Vec<Position>,
    pub next: usize,
}

impl DeterministicAgent {
    /// An agent that will hand out `answers` in order.
    pub fn new(answers: Vec<Position>) -> (agent: DeterministicAgent)
        ensures
            agent.answers@ == answers@,
            agent.next == 0,
    {
        DeterministicAgent { answers, next: 0 }
    }
}

impl Agent for DeterministicAgent {
    open spec fn fuel(&self) -> nat {
        if self.next < self.answers@.len() {
            (self.answers@.len() - self.next) as nat
        } else {
            0
        }
    }

    open spec fn decide(&self, asker: Player, choices: Seq<Position>) -> Option<Answer> {
        if self.next < self.answers@.len() {
            Some(Answer(self.answers@[self.next as int]))
        } else {
            None
        }
    }

    open spec fn advance(&self, asker: Player, choices: Seq<Position>) -> Self {
        if self.next < self.answers@.len() {
            DeterministicAgent { answers: self.answers, next: (self.next + 1) as usize }
        } else {
            *self
        }
    }

    proof fn progress(&self, asker: Player, choices: Seq<Position>) {
        vstd::std_specs::vec::axiom_spec_len(&self.answers);
    }

    fn answer(&mut self, question: &Question) -> (a: Option<Answer>) {
        if self.next < self.answers.len() {
            let position = self.answers[self.next];
            self.next = self.next + 1;
            Some(Answer(position))
        } else {
            None
        }
    }
}

/// The outcome of driving a game to rest: the final game state and the
/// final agent states, as a pure function of the starting states. The
/// driver stops when the game is terminal, or when the agent asked for a
/// move declines (the game is then left waiting on its question).
pub open spec fn run_model<A: Agent>(v: GameView, nought: A, cross: A) -> (GameView, A, A)
    decreases empties(v.board).len(), nought.fuel() + cross.fuel(), pending_rank(v),
    when v.wf()
    via run_model_decreases::<A>
{
    match v.phase {
        Phase::PlayersTurn(player) => match v.answer {
            None => {
                let choices = empties(v.board);
                let chosen = if player == Player::Nought {
                    nought.decide(player, choices)
                } else {
                    cross.decide(player, choices)
                };
                let nought2 = if player == Player::Nought {
                    nought.advance(player, choices)
                } else {
                    nought
                };
                let cross2 = if player == Player::Cross {
                    cross.advance(player, choices)
                } else {
                    cross
                };
                match chosen {
                    Some(a) => run_model(GameView { answer: Some(a), ..v }, nought2, cross2),
                    None => (v, nought2, cross2),
                }
            },
            Some(a) => if empties(v.board).contains(a.0) {
                run_model(
                    GameView {
                        phase: Phase::CheckWin(player),
                        board: v.board.update(a.0.index_spec(), Some(player)),
                        answer: None,
                    },
                    nought,
                    cross,
                )
            } else {
                run_model(GameView { answer: None, ..v }, nought, cross)
            },
        },
        Phase::CheckWin(player) => run_model(
            GameView {
                phase: match winner(v.board) {
                    Some(w) => Phase::PlayerWon(w),
                    None => if empties(v.board).len() == 0 {
                        Phase::Draw
                    } else {
                        Phase::PlayersTurn(opponent(player))
                    },
                },
                ..v
            },
            nought,
            cross,
        ),
        Phase::PlayerWon(_) => (v, nought, cross),
        Phase::Draw => (v, nought, cross),
    }
}

#[via_fn]
proof fn run_model_decreases<A: Agent>(v: GameView, nought: A, cross: A) {
    match v.phase {
        Phase::PlayersTurn(player) => {
            match v.answer {
                None => {
                    let choices = empties(v.board);
                    if player == Player::Nought {
                        nought.progress(player, choices);
                    } else {
                        cross.progress(player, choices);
                    }
                },
                Some(a) => {
                    if empties(v.board).contains(a.0) {
                        lemma_empties_contains(v.board, a.0);
                        lemma_empties_update(v.board, a.0.index_spec(), player, 9);
                    }
                },
            }
        },
        _ => {},
    }
}

/// After reaching state `u`, a driver either continues directly or — where
/// the engine awaits an answer — sets exactly one pending answer first.
pub open spec fn may_inject(u: GameView, w: GameView) -> bool {
    w == u || ((u.phase matches Phase::PlayersTurn(_)) && u.answer is None && (w.answer matches
    Some(_)) && w == (GameView { answer: w.answer, ..u }))
}

/// The state the driver continues from after reaching `u`, read off the
/// messages that follow: where the engine awaits an answer and the next
/// batch vets one, that answer was set; everywhere else the driver changed
/// nothing. (An accepted answer reappears in the `Move`, a rejected one in
/// the `RejectAnswer`, so the injected answer is recoverable.)
pub open spec fn injected(u: GameView, rest: Seq<Message>) -> GameView {
    if (u.phase matches Phase::PlayersTurn(_)) && u.answer is None && rest.len() > 0 {
        match rest[0] {
            Message::RejectAnswer(_, a) => GameView { answer: Some(a), ..u },
            Message::AcceptAnswer => if rest.len() >= 2 {
                match rest[1] {
                    Message::Move(_, pos) => GameView { answer: Some(Answer(pos)), ..u },
                    _ => u,
                }
            } else {
                u
            },
            _ => u,
        }
    } else {
        u
    }
}

/// `trace` is the full message sequence of an engine-driven run from `v` to
/// `end`: a concatenation of whole batches that the engine itself emits,
/// between which the driver may set a pending answer where the engine awaits
/// one.
pub open spec fn driven_to(v: GameView, trace: Seq<Message>, end: GameView) -> bool
    decreases trace.len(),
{
    if trace.len() == 0 {
        end == v
    } else {
        batch_len(v) >= 1 && trace.len() >= batch_len(v) && emits(v, trace.take(batch_len(v)))
            && driven_to(
            injected(apply_all(v, trace.take(batch_len(v))), trace.skip(batch_len(v))),
            trace.skip(batch_len(v)),
            end,
        )
    }
}

/// Extending a driven trace by one more emitted batch keeps it a driven
/// trace: `anchor` is where the trace ends, `s` the state after the driver's
/// possible injection there, and the new batch is emitted from `s`.
pub proof fn lemma_driven_to_snoc(
    v: GameView,
    trace: Seq<Message>,
    anchor: GameView,
    s: GameView,
    batch: Seq<Message>,
)
    requires
        driven_to(v, trace, anchor),
        may_inject(anchor, s),
        trace.len() == 0 ==> s == anchor,
        emits(s, batch),
        batch.len() >= 1,
    ensures
        driven_to(v, trace + batch, apply_all(s, batch)),
    decreases trace.len(),
{
    reveal_with_fuel(driven_to, 3);
    if trace.len() == 0 {
        assert(trace + batch =~= batch);
        lemma_emits_len(v, batch);
        assert((trace + batch).take(batch_len(v)) =~= batch);
        assert((trace + batch).skip(batch_len(v)) =~= Seq::<Message>::empty());
        assert(driven_to(
            injected(apply_all(s, batch), Seq::<Message>::empty()),
            (trace + batch).skip(batch_len(v)),
            apply_all(s, batch),
        ));
    } else {
        let u1 = apply_all(v, trace.take(batch_len(v)));
        let rest = trace.skip(batch_len(v));
        let w = injected(u1, rest);
        assert(driven_to(w, rest, anchor));
        assert((trace + batch).take(batch_len(v)) =~= trace.take(batch_len(v)));
        assert((trace + batch).skip(batch_len(v)) =~= rest + batch);
        if rest.len() == 0 {
            assert(w == u1 && anchor == u1);
            lemma_emits_len(s, batch);
            assert(injected(u1, rest + batch) == s) by {
                assert((rest + batch) =~= batch);
            }
            assert(driven_to(s, rest + batch, apply_all(s, batch))) by {
                assert(rest + batch =~= batch);
                assert(batch.take(batch_len(s)) =~= batch);
                assert(batch.skip(batch_len(s)) =~= Seq::<Message>::empty());
                assert(driven_to(
                    injected(apply_all(s, batch), Seq::<Message>::empty()),
                    batch.skip(batch_len(s)),
                    apply_all(s, batch),
                ));
            }
        } else {
            assert(injected(u1, rest + batch) == w) by {
                assert((rest + batch)[0] == rest[0]);
                if rest.len() >= 2 {
                    assert((rest + batch)[1] == rest[1]);
                } else {
                    if (u1.phase matches Phase::PlayersTurn(_)) && u1.answer is None && rest[0]
                        == Message::AcceptAnswer {
                        // a lone AcceptAnswer is not a whole emitted batch
                        assert(rest.take(batch_len(w)) =~= rest);
                        assert(false);
                    }
                }
            }
            lemma_driven_to_snoc(w, rest, anchor, s, batch);
        }
    }
}

/// Every state of agent type `A` answers any non-empty question, and always
/// from the offered choices.
pub open spec fn always_valid<A: Agent>() -> bool {
    forall|agent: A, asker: Player, choices: Seq<Position>|
        choices.len() > 0 ==> ((#[trigger] agent.decide(asker, choices)) matches Some(ans)
            && choices.contains(ans.0))
}

/// Random agents always answer from the offered choices.
pub proof fn lemma_random_agent_always_valid()
    ensures
        always_valid::<RandomAgent>(),
{
    assert forall|agent: RandomAgent, asker: Player, choices: Seq<Position>|
        choices.len() > 0 implies ((#[trigger] agent.decide(asker, choices)) matches Some(ans)
        && choices.contains(ans.0)) by {
        let picked = lcg_pick(lcg_next(agent.random), choices.len() as int);
        assert(choices.contains(choices[picked]));
    }
}

/// Whenever it is a player's turn, an open cell remains to choose; true of
/// every state that arises in play, and preserved by the driver.
pub open spec fn playable(v: GameView) -> bool {
    v.phase matches Phase::PlayersTurn(_) ==> empties(v.board).len() > 0
}

/// Law: agents that always answer from the offered choices drive any
/// playable game to a terminal phase — the driver never stops early.
pub proof fn lemma_run_model_completes<A: Agent>(v: GameView, nought: A, cross: A)
    requires
        v.wf(),
        playable(v),
        always_valid::<A>(),
    ensures
        terminal(run_model(v, nought, cross).0.phase),
    decreases empties(v.board).len(), nought.fuel() + cross.fuel(), pending_rank(v),
{
    match v.phase {
        Phase::PlayersTurn(player) => {
            match v.answer {
                None => {
                    let choices = empties(v.board);
                    let chosen = if player == Player::Nought {
                        nought.decide(player, choices)
                    } else {
                        cross.decide(player, choices)
                    };
                    let nought2 = if player == Player::Nought {
                        nought.advance(player, choices)
                    } else {
                        nought
                    };
                    let cross2 = if player == Player::Cross {
                        cross.advance(player, choices)
                    } else {
                        cross
                    };
                    if player == Player::Nought {
                        nought.progress(player, choices);
                    } else {
                        cross.progress(player, choices);
                    }
                    match chosen {
                        Some(a) => {
                            lemma_run_model_completes(
                                GameView { answer: Some(a), ..v },
                                nought2,
                                cross2,
                            );
                        },
                        None => {
                            assert(false);
                        },
                    }
                },
                Some(a) => {
                    if empties(v.board).contains(a.0) {
                        lemma_empties_contains(v.board, a.0);
                        lemma_empties_update(v.board, a.0.index_spec(), player, 9);
                        lemma_run_model_completes(
                            GameView {
                                phase: Phase::CheckWin(player),
                                board: v.board.update(a.0.index_spec(), Some(player)),
                                answer: None,
                            },
                            nought,
                            cross,
                        );
                    } else {
                        lemma_run_model_completes(GameView { answer: None, ..v }, nought, cross);
                    }
                },
            }
        },
        Phase::CheckWin(player) => {
            lemma_run_model_completes(
                GameView {
                    phase: match winner(v.board) {
                        Some(w) => Phase::PlayerWon(w),
                        None => if empties(v.board).len() == 0 {
                            Phase::Draw
                        } else {
                            Phase::PlayersTurn(opponent(player))
                        },
                    },
                    ..v
                },
                nought,
                cross,
            );
        },
        Phase::PlayerWon(_) => {},
        Phase::Draw => {},
    }
}

/// Law: from a fresh game, agents that always answer from the offered
/// choices reach `PlayerWon` or `Draw`.
pub proof fn lemma_fresh_game_completes<A: Agent>(nought: A, cross: A)
    requires
        always_valid::<A>(),
    ensures
        terminal(run_model(crate::game::fresh_game(), nought, cross).0.phase),
{
    crate::game::lemma_empty_board_empties(9);
    lemma_run_model_completes(crate::game::fresh_game(), nought, cross);
}

/// The driver: owns a game, its listeners, and one agent per player, and
/// plays the game forward.
pub struct GameLoop<L: Listener, A: Agent> {
    pub game: Game,
    pub listeners: Vec<L>,
    pub nought_agent: A,
    pub cross_agent: A,
}

impl<L: Listener, A: Agent> GameLoop<L, A> {
    /// Drives the game until it reaches a terminal phase, or until the agent
    /// asked for a move declines to answer (in which case the game is left
    /// waiting on its question). Every produced message is applied to the
    /// game and then shown to every listener, in order; whenever a question
    /// is posed, the asking player's agent supplies the pending answer for
    /// the next cycle.
    ///
    /// The returned ghost value is the run's full message sequence: an
    /// engine-driven trace (`driven_to`) that ends at the final game state,
    /// and exactly what every listener observed, appended in application
    /// order. The final game and agent states are exactly `run_model` of
    /// the starting ones: the whole run is deterministic.
    pub fn run(&mut self) -> (msgs: Ghost<Seq<Message>>)
        requires
            old(self).game.wf(),
        ensures
            final(self).game.wf(),
            terminal(final(self).game@.phase) || ((final(self).game@.phase
                matches Phase::PlayersTurn(_)) && final(self).game@.answer is None),
            (final(self).game@, final(self).nought_agent, final(self).cross_agent) == run_model(
                old(self).game@,
                old(self).nought_agent,
                old(self).cross_agent,
            ),
            driven_to(old(self).game@, msgs@, final(self).game@),
            final(self).listeners@.len() == old(self).listeners@.len(),
            forall|l: int|
                0 <= l < old(self).listeners@.len() ==> final(self).listeners@[l].observed()
                    == old(self).listeners@[l].observed() + msgs@,
    {
        let ghost init_game = self.game@;
        let ghost init_nought = self.nought_agent;
        let ghost init_cross = self.cross_agent;
        let ghost init_listeners = self.listeners@;
        let ghost mut trace: Seq<Message> = Seq::empty();
        let ghost mut anchor: GameView = self.game@;
        proof {
            assert forall|l: int|
                0 <= l < init_listeners.len() implies self.listeners@[l].observed()
                == init_listeners[l].observed() + trace by {
                assert(init_listeners[l].observed() + trace =~= init_listeners[l].observed());
            }
        }
        while self.game.is_running()
            invariant_except_break
                run_model(init_game, init_nought, init_cross) == run_model(
                    self.game@,
                    self.nought_agent,
                    self.cross_agent,
                ),
            invariant
                self.game.wf(),
                init_game.wf(),
                driven_to(init_game, trace, anchor),
                may_inject(anchor, self.game@),
                trace.len() == 0 ==> self.game@ == anchor,
                self.listeners@.len() == init_listeners.len(),
                forall|l: int|
                    0 <= l < init_listeners.len() ==> self.listeners@[l].observed()
                        == init_listeners[l].observed() + trace,
            ensures
                self.game.wf(),
                terminal(self.game@.phase) || ((self.game@.phase matches Phase::PlayersTurn(_))
                    && self.game@.answer is None),
                run_model(init_game, init_nought, init_cross) == (
                    self.game@,
                    self.nought_agent,
                    self.cross_agent,
                ),
                driven_to(init_game, trace, self.game@),
                self.listeners@.len() == init_listeners.len(),
                forall|l: int|
                    0 <= l < init_listeners.len() ==> self.listeners@[l].observed()
                        == init_listeners[l].observed() + trace,
            decreases
                    empties(self.game@.board).len(),
                    self.nought_agent.fuel() + self.cross_agent.fuel(),
                    pending_rank(self.game@),
        {
            let ghost g0 = self.game@;
            let ghost na0 = self.nought_agent;
            let ghost ca0 = self.cross_agent;
            let ghost ls0 = self.listeners@;
            let batch = self.game.next_actions();
            let mut i: usize = 0;
            proof {
                assert(batch@.take(0) =~= Seq::<Message>::empty());
            }
            while i < batch.len()
                invariant
                    self.game.wf(),
                    i <= batch@.len(),
                    g0.wf(),
                    !terminal(g0.phase),
                    emits(g0, batch@),
                    self.game@ == apply_all(g0, batch@.take(i as int)),
                    self.nought_agent == na0,
                    self.cross_agent == ca0,
                    self.listeners@.len() == ls0.len(),
                    forall|l: int|
                        0 <= l < ls0.len() ==> self.listeners@[l].observed() == ls0[l].observed()
                            + batch@.take(i as int),
                decreases batch@.len() - i,
            {
                proof {
                    lemma_emits_step(g0, batch@, i as int);
                    lemma_apply_all_push(g0, batch@.take(i as int), batch@[i as int]);
                    assert(batch@.take(i as int).push(batch@[i as int]) =~= batch@.take(
                        i as int + 1,
                    ));
                }
                let msg = &batch[i];
                self.game.handle(msg);
                let mut j: usize = 0;
                while j < self.listeners.len()
                    invariant
                        self.game.wf(),
                        i < batch@.len(),
                        self.game@ == apply_all(g0, batch@.take(i as int + 1)),
                        self.nought_agent == na0,
                        self.cross_agent == ca0,
                        j <= self.listeners@.len(),
                        self.listeners@.len() == ls0.len(),
                        *msg == batch@[i as int],
                        forall|l: int|
                            0 <= l < j ==> self.listeners@[l].observed() == ls0[l].observed()
                                + batch@.take(i as int + 1),
                        forall|l: int|
                            j <= l < ls0.len() ==> self.listeners@[l].observed() == ls0[
                                l].observed() + batch@.take(i as int),
                    decreases self.listeners@.len() - j,
                {
                    self.listeners[j].handle(msg);
                    proof {
                        assert((ls0[j as int].observed() + batch@.take(i as int)).push(
                            batch@[i as int],
                        ) =~= ls0[j as int].observed() + batch@.take(i as int + 1));
                    }
                    j += 1;
                }
                i += 1;
            }
            proof {
                assert(batch@.take(batch@.len() as int) =~= batch@);
                lemma_batch_outcome(g0, batch@);
                lemma_batch_result(g0, batch@);
                assert(batch@.len() > 0);
                lemma_driven_to_snoc(init_game, trace, anchor, g0, batch@);
                let ghost old_trace = trace;
                trace = trace + batch@;
                anchor = apply_all(g0, batch@);
                assert forall|l: int|
                    0 <= l < init_listeners.len() implies self.listeners@[l].observed()
                    == init_listeners[l].observed() + trace by {
                    assert(init_listeners[l].observed() + (old_trace + batch@) =~= (
                    init_listeners[l].observed() + old_trace) + batch@);
                }
            }
            if batch.len() > 0 {
                let last: usize = batch.len() - 1;
                match &batch[last] {
                    Message::Question(q) => {
                        let maybe = match q.0 {
                            Player::Nought => self.nought_agent.answer(q),
                            Player::Cross => self.cross_agent.answer(q),
                        };
                        proof {
                            if q.0 == Player::Nought {
                                na0.progress(q.0, q.1@);
                            } else {
                                ca0.progress(q.0, q.1@);
                            }
                        }
                        match maybe {
                            Some(a) => {
                                self.game.set_answer(a);
                                proof {
                                    assert(self.game@ == (GameView { answer: Some(a), ..g0 }));
                                    assert(run_model(g0, na0, ca0) == run_model(
                                        self.game@,
                                        self.nought_agent,
                                        self.cross_agent,
                                    ));
                                    assert(anchor == g0);
                                    assert(self.game@ == (GameView {
                                        answer: self.game@.answer,
                                        ..anchor
                                    }));
                                }
                            },
                            None => {
                                proof {
                                    assert(run_model(g0, na0, ca0) == (
                                        self.game@,
                                        self.nought_agent,
                                        self.cross_agent,
                                    ));
                                }
                                break ;
                            },
                        }
                    },
                    _ => {
                        proof {
                            assert(run_model(g0, na0, ca0) == run_model(
                                self.game@,
                                self.nought_agent,
                                self.cross_agent,
                            ));
                        }
                    },
                }
            }
        }
        Ghost(trace)
    }
}

} // verus!
