//! A message-driven tic-tac-toe engine.
//!
//! The game's rules live in a finite-state machine ([`Game`]) that is
//! decoupled from whatever supplies moves and from whatever observes
//! progress: the engine emits [`Message`] values, and a driver applies them
//! back, fans them out to listeners, and asks an agent whenever the engine
//! poses a question.

mod agents;
mod game;
mod laws;
mod render;

pub use agents::Agent;
pub use agents::DeterministicAgent;
pub use agents::GameLoop;
pub use agents::Listener;
pub use agents::MessageLog;
pub use agents::MessagePrinter;
pub use agents::RandomAgent;
pub use agents::always_valid;
pub use agents::lcg_next;
pub use agents::lcg_pick;
pub use agents::lemma_fresh_game_completes;
pub use agents::lemma_random_agent_always_valid;
pub use agents::lemma_run_model_completes;
pub use agents::playable;
pub use agents::run_model;
pub use game::Answer;
pub use game::Game;
pub use game::GameView;
pub use game::Message;
pub use game::Phase;
pub use game::Player;
pub use game::Position;
pub use game::Question;
pub use game::apply;
pub use game::apply_all;
pub use game::emits;
pub use game::empties;
pub use game::empty_board;
pub use game::fresh_game;
pub use game::line_indices;
pub use game::line_owner;
pub use game::opponent;
pub use game::pending_rank;
pub use game::poses_question;
pub use game::position_at;
pub use game::position_from_index;
pub use game::status_text;
pub use game::terminal;
pub use game::winner;
pub use game::wins;
pub use laws::alternating;
pub use laws::lemma_at_most_nine_moves;
pub use laws::lemma_occupied_answer_rejected;
pub use laws::lemma_sole_winner_named;
pub use laws::lemma_valid_moves_fill_board;
pub use laws::lemma_winner_detects;
pub use laws::lemma_wins_transpose;
pub use laws::moves_valid;
pub use laws::play_all;
pub use laws::transpose_board;
pub use laws::transpose_index;
pub use laws::transpose_line;
pub use render::css_class_for_position;
pub use render::css_class_spec;
pub use render::exactly_one_flag;
pub use render::selected_position;
