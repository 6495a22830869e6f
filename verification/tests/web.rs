use tictactoe::css_class_for_position;
use tictactoe::selected_position;
use tictactoe::Game;
use tictactoe::Message;
use tictactoe::Player;
use tictactoe::Position;

#[test]
fn css_classes_track_the_board() {
    let mut game = Game::new();
    assert_eq!(css_class_for_position(&game, Position::Center), "");
    game.handle(&Message::Move(Player::Nought, Position::Center));
    game.handle(&Message::Move(Player::Cross, Position::TopLeft));
    assert_eq!(css_class_for_position(&game, Position::Center), "nought");
    assert_eq!(css_class_for_position(&game, Position::TopLeft), "cross");
    assert_eq!(css_class_for_position(&game, Position::BottomRight), "");
}

#[test]
fn selected_position_requires_exactly_one_flag() {
    assert_eq!(selected_position(&[false; 9]), None);
    assert_eq!(
        selected_position(&[true, false, false, false, false, false, false, false, false]),
        Some(Position::TopLeft)
    );
    assert_eq!(
        selected_position(&[false, false, false, false, true, false, false, false, false]),
        Some(Position::Center)
    );
    assert_eq!(
        selected_position(&[false, false, false, false, false, false, false, false, true]),
        Some(Position::BottomRight)
    );
    assert_eq!(
        selected_position(&[true, false, false, false, true, false, false, false, false]),
        None
    );
    assert_eq!(selected_position(&[true; 9]), None);
}

#[test]
fn status_messages_describe_each_phase() {
    let mut game = Game::new();
    assert_eq!(game.status_message(), "Nought's turn");
    game.handle(&Message::Turn(Player::Cross));
    assert_eq!(game.status_message(), "Cross's turn");
    game.handle(&Message::Move(Player::Cross, Position::Center));
    assert_eq!(game.status_message(), "Checking for a winner");
    game.handle(&Message::Win(Player::Nought));
    assert_eq!(game.status_message(), "Nought won");
    game.handle(&Message::Draw);
    assert_eq!(game.status_message(), "It's a draw");
}
