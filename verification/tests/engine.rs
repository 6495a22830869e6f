use tictactoe::Answer;
use tictactoe::Game;
use tictactoe::Message;
use tictactoe::Phase;
use tictactoe::Player;
use tictactoe::Position;
use tictactoe::Question;

#[test]
fn new_game_poses_question_to_nought() {
    let mut game = Game::new();
    assert!(game.is_running());
    assert_eq!(game.status_message(), "Nought's turn");
    let batch = game.step();
    assert_eq!(batch.len(), 1);
    match &batch[0] {
        Message::Question(Question(player, choices)) => {
            assert_eq!(*player, Player::Nought);
            assert_eq!(choices.len(), 9);
            assert_eq!(choices[0], Position::TopLeft);
            assert_eq!(choices[8], Position::BottomRight);
        }
        other => panic!("expected a question, got {:?}", other),
    }
}

#[test]
fn reject_then_accept() {
    let mut game = Game::new();
    let _ = game.step();
    game.set_answer(Answer(Position::Center));
    let batch = game.step();
    assert_eq!(batch.len(), 2);
    assert!(matches!(batch[0], Message::AcceptAnswer));
    assert!(matches!(batch[1], Message::Move(Player::Nought, Position::Center)));
    let batch = game.step();
    assert_eq!(batch.len(), 1);
    assert!(matches!(batch[0], Message::Turn(Player::Cross)));
    let _ = game.step();

    // Cross answers with the already-occupied center: exactly one rejection,
    // no move.
    game.set_answer(Answer(Position::Center));
    let batch = game.step();
    assert_eq!(batch.len(), 1);
    assert!(matches!(batch[0], Message::RejectAnswer(_, Answer(Position::Center))));
    assert_eq!(game.phase, Phase::PlayersTurn(Player::Cross));

    // A valid answer is then accepted and becomes a move.
    let _ = game.step();
    game.set_answer(Answer(Position::TopLeft));
    let batch = game.step();
    assert_eq!(batch.len(), 2);
    assert!(matches!(batch[0], Message::AcceptAnswer));
    assert!(matches!(batch[1], Message::Move(Player::Cross, Position::TopLeft)));
}

#[test]
fn rejection_leaves_phase_and_board_unchanged() {
    let mut game = Game::new();
    let _ = game.step();
    game.set_answer(Answer(Position::TopLeft));
    let _ = game.step();
    let _ = game.step();
    let _ = game.step();
    let phase_before = game.phase;
    let board_before: Vec<Option<Player>> = game.board.clone();
    game.set_answer(Answer(Position::TopLeft));
    let batch = game.step();
    assert_eq!(batch.len(), 1);
    assert!(matches!(batch[0], Message::RejectAnswer(_, _)));
    assert_eq!(game.phase, phase_before);
    assert_eq!(game.board, board_before);
    assert!(game.answer.is_none());
}

#[test]
fn win_detected_on_every_line() {
    let lines = [
        [Position::TopLeft, Position::TopCenter, Position::TopRight],
        [Position::CenterLeft, Position::Center, Position::CenterRight],
        [Position::BottomLeft, Position::BottomCenter, Position::BottomRight],
        [Position::TopLeft, Position::CenterLeft, Position::BottomLeft],
        [Position::TopCenter, Position::Center, Position::BottomCenter],
        [Position::TopRight, Position::CenterRight, Position::BottomRight],
        [Position::TopLeft, Position::Center, Position::BottomRight],
        [Position::TopRight, Position::Center, Position::BottomLeft],
    ];
    for line in lines {
        for player in [Player::Nought, Player::Cross] {
            let mut game = Game::new();
            for cell in line {
                game.handle(&Message::Move(player, cell));
            }
            let batch = game.next_actions();
            assert_eq!(batch.len(), 1);
            assert_eq!(batch[0], Message::Win(player));
            game.handle(&batch[0]);
            assert_eq!(game.phase, Phase::PlayerWon(player));
            assert!(!game.is_running());
        }
    }
}

#[test]
fn full_board_without_line_is_a_draw() {
    // N X N
    // N X X
    // X N N
    let mut game = Game::new();
    let noughts = [
        Position::TopLeft,
        Position::TopRight,
        Position::CenterLeft,
        Position::BottomCenter,
        Position::BottomRight,
    ];
    let crosses = [
        Position::TopCenter,
        Position::Center,
        Position::CenterRight,
        Position::BottomLeft,
    ];
    for i in 0..4 {
        game.handle(&Message::Move(Player::Nought, noughts[i]));
        game.handle(&Message::Move(Player::Cross, crosses[i]));
    }
    game.handle(&Message::Move(Player::Nought, noughts[4]));
    let batch = game.next_actions();
    assert_eq!(batch.len(), 1);
    assert_eq!(batch[0], Message::Draw);
    game.handle(&batch[0]);
    assert_eq!(game.phase, Phase::Draw);
    assert_eq!(game.status_message(), "It's a draw");
}

#[test]
fn terminal_game_emits_nothing() {
    let mut game = Game::new();
    game.handle(&Message::Win(Player::Cross));
    assert_eq!(game.status_message(), "Cross won");
    let batch = game.next_actions();
    assert!(batch.is_empty());
    let batch = game.step();
    assert!(batch.is_empty());
}

#[test]
fn run_until_question_stops_at_the_question() {
    let mut game = Game::new();
    let log = game.run_until_question();
    assert_eq!(log.len(), 1);
    assert!(matches!(log[0], Message::Question(_)));
    assert_eq!(game.phase, Phase::PlayersTurn(Player::Nought));
    assert!(game.answer.is_none());

    game.set_answer(Answer(Position::Center));
    let log = game.run_until_question();
    // Accept, Move, Turn, then the next question for Cross.
    assert_eq!(log.len(), 4);
    assert!(matches!(log[0], Message::AcceptAnswer));
    assert!(matches!(log[1], Message::Move(Player::Nought, Position::Center)));
    assert!(matches!(log[2], Message::Turn(Player::Cross)));
    assert!(matches!(log[3], Message::Question(_)));
    assert_eq!(game.status_message(), "Cross's turn");
}

#[test]
fn validate_accepts_only_offered_choices() {
    let question = Question(Player::Nought, vec![Position::TopLeft, Position::Center]);
    assert!(question.validate(&Answer(Position::TopLeft)));
    assert!(question.validate(&Answer(Position::Center)));
    assert!(!question.validate(&Answer(Position::BottomRight)));
    let empty = Question(Player::Cross, vec![]);
    assert!(!empty.validate(&Answer(Position::TopLeft)));
}

#[test]
fn position_indices_cover_the_board() {
    let all = [
        Position::TopLeft,
        Position::TopCenter,
        Position::TopRight,
        Position::CenterLeft,
        Position::Center,
        Position::CenterRight,
        Position::BottomLeft,
        Position::BottomCenter,
        Position::BottomRight,
    ];
    for (expected, position) in all.iter().enumerate() {
        assert_eq!(position.index(), expected);
    }
}
