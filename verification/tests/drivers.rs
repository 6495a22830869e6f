use tictactoe::Agent;
use tictactoe::Answer;
use tictactoe::DeterministicAgent;
use tictactoe::Game;
use tictactoe::GameLoop;
use tictactoe::Message;
use tictactoe::MessageLog;
use tictactoe::MessagePrinter;
use tictactoe::Phase;
use tictactoe::Player;
use tictactoe::Position;
use tictactoe::Question;
use tictactoe::RandomAgent;

#[test]
fn it_works() {
    let game = Game::new();
    let mut gl = GameLoop {
        game: game,
        listeners: vec![MessagePrinter::new()],
        nought_agent: RandomAgent { random: 97 },
        cross_agent: RandomAgent { random: 67 },
    };

    gl.run();
}

#[test]
fn noughts_win() {
    let game = Game::new();
    let agent_nought = DeterministicAgent::new(vec![
        Position::TopLeft,
        Position::TopRight,
        Position::TopCenter,
    ]);
    let agent_cross = DeterministicAgent::new(vec![
        Position::CenterLeft,
        Position::Center,
        Position::CenterRight,
    ]);
    let listeners: Vec<MessagePrinter> = vec![];
    let mut gl = GameLoop {
        game: game,
        listeners: listeners,
        nought_agent: agent_nought,
        cross_agent: agent_cross,
    };

    gl.run();

    assert_eq!(gl.game.phase, Phase::PlayerWon(Player::Nought));
}

#[test]
fn nought_wins_the_top_row() {
    let game = Game::new();
    let agent_nought = DeterministicAgent::new(vec![
        Position::TopLeft,
        Position::TopCenter,
        Position::TopRight,
    ]);
    let agent_cross = DeterministicAgent::new(vec![
        Position::CenterLeft,
        Position::Center,
        Position::CenterRight,
    ]);
    let listeners: Vec<MessagePrinter> = vec![];
    let mut gl = GameLoop {
        game: game,
        listeners: listeners,
        nought_agent: agent_nought,
        cross_agent: agent_cross,
    };

    gl.run();

    assert_eq!(gl.game.phase, Phase::PlayerWon(Player::Nought));
}

#[test]
fn scripted_draw() {
    // Final board, with no three in a row anywhere:
    //   N X N
    //   N X X
    //   X N N
    let game = Game::new();
    let agent_nought = DeterministicAgent::new(vec![
        Position::TopLeft,
        Position::TopRight,
        Position::CenterLeft,
        Position::BottomCenter,
        Position::BottomRight,
    ]);
    let agent_cross = DeterministicAgent::new(vec![
        Position::TopCenter,
        Position::Center,
        Position::CenterRight,
        Position::BottomLeft,
    ]);
    let listeners: Vec<MessagePrinter> = vec![];
    let mut gl = GameLoop {
        game: game,
        listeners: listeners,
        nought_agent: agent_nought,
        cross_agent: agent_cross,
    };

    gl.run();

    assert_eq!(gl.game.phase, Phase::Draw);
}

#[test]
fn identically_seeded_runs_replay_the_same_messages() {
    let mut first = GameLoop {
        game: Game::new(),
        listeners: vec![MessageLog::new()],
        nought_agent: RandomAgent { random: 5 },
        cross_agent: RandomAgent { random: 9 },
    };
    let mut second = GameLoop {
        game: Game::new(),
        listeners: vec![MessageLog::new()],
        nought_agent: RandomAgent { random: 5 },
        cross_agent: RandomAgent { random: 9 },
    };

    first.run();
    second.run();

    assert!(!first.game.is_running());
    assert!(!first.listeners[0].messages.is_empty());
    assert_eq!(first.listeners[0].messages, second.listeners[0].messages);
    assert_eq!(first.game.phase, second.game.phase);
}

#[test]
fn differently_seeded_runs_may_diverge() {
    let mut first = GameLoop {
        game: Game::new(),
        listeners: vec![MessageLog::new()],
        nought_agent: RandomAgent { random: 1 },
        cross_agent: RandomAgent { random: 2 },
    };
    let mut second = GameLoop {
        game: Game::new(),
        listeners: vec![MessageLog::new()],
        nought_agent: RandomAgent { random: 3 },
        cross_agent: RandomAgent { random: 4 },
    };

    first.run();
    second.run();

    assert!(!first.game.is_running());
    assert!(!second.game.is_running());
}

#[test]
fn random_agent_follows_its_formula() {
    // Seed 97 steps to (97 * 22695477 + 1) mod 2^32 = 2201461270, whose bits
    // 16..31 give 33591; 33591 mod 9 = 3, so the agent picks the fourth of
    // nine choices.
    let mut agent = RandomAgent { random: 97 };
    let question = Question(
        Player::Nought,
        vec![
            Position::TopLeft,
            Position::TopCenter,
            Position::TopRight,
            Position::CenterLeft,
            Position::Center,
            Position::CenterRight,
            Position::BottomLeft,
            Position::BottomCenter,
            Position::BottomRight,
        ],
    );
    let answer = agent.answer(&question);
    assert_eq!(agent.random, 2201461270);
    assert_eq!(answer, Some(Answer(Position::CenterLeft)));
}

#[test]
fn random_agent_declines_an_empty_question() {
    let mut agent = RandomAgent { random: 42 };
    let question = Question(Player::Cross, vec![]);
    assert_eq!(agent.answer(&question), None);
}

#[test]
fn scripted_agent_replays_then_declines() {
    let mut agent = DeterministicAgent::new(vec![Position::Center, Position::TopLeft]);
    let question = Question(
        Player::Nought,
        vec![Position::TopLeft, Position::Center, Position::BottomRight],
    );
    assert_eq!(agent.answer(&question), Some(Answer(Position::Center)));
    assert_eq!(agent.answer(&question), Some(Answer(Position::TopLeft)));
    assert_eq!(agent.answer(&question), None);
}

#[test]
fn exhausted_agent_leaves_the_game_waiting() {
    let game = Game::new();
    let agent_nought = DeterministicAgent::new(vec![Position::Center]);
    let agent_cross = DeterministicAgent::new(vec![]);
    let listeners: Vec<MessagePrinter> = vec![];
    let mut gl = GameLoop {
        game: game,
        listeners: listeners,
        nought_agent: agent_nought,
        cross_agent: agent_cross,
    };

    gl.run();

    // Nought moved once; Cross had no script, so its question is unanswered.
    assert_eq!(gl.game.phase, Phase::PlayersTurn(Player::Cross));
    assert!(gl.game.answer.is_none());
    assert!(gl.game.is_running());
}

#[test]
fn listeners_see_every_message_in_order() {
    let game = Game::new();
    let agent_nought = DeterministicAgent::new(vec![
        Position::TopLeft,
        Position::TopCenter,
        Position::TopRight,
    ]);
    let agent_cross = DeterministicAgent::new(vec![Position::CenterLeft, Position::Center]);
    let mut gl = GameLoop {
        game: game,
        listeners: vec![MessageLog::new(), MessageLog::new()],
        nought_agent: agent_nought,
        cross_agent: agent_cross,
    };

    gl.run();

    let messages = &gl.listeners[0].messages;
    assert_eq!(messages, &gl.listeners[1].messages);
    assert!(matches!(messages[0], Message::Question(_)));
    assert!(matches!(messages[1], Message::AcceptAnswer));
    assert!(matches!(messages[2], Message::Move(Player::Nought, Position::TopLeft)));
    assert!(matches!(messages[3], Message::Turn(Player::Cross)));
    assert_eq!(
        messages[messages.len() - 1],
        Message::Win(Player::Nought)
    );
}
