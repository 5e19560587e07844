use connect_four::play::{Disc, Dropped, Ending, GameState, Key, Move, Palette, Who};
use connect_four::position::Position;

#[test]
fn players_take_turns() {
    assert_eq!(Who::PlayerRed.next(), Who::PlayerYellow);
    assert_eq!(Who::PlayerYellow.next(), Who::PlayerRed);
    assert_eq!(Who::PlayerRed.color(), Palette::Red);
    assert_eq!(Who::PlayerYellow.color(), Palette::Yellow);
    assert_eq!(Palette::Red.rgb(), (231, 61, 36));
    assert_eq!(Palette::Yellow.rgb(), (228, 167, 74));
    assert_eq!(Palette::White.rgb(), (220, 220, 221));
}

#[test]
fn a_game_begins_with_the_moves_given() {
    let state = GameState::new(Some("4453".to_string()));
    assert_eq!(state.position(), Position::try_from("4453").unwrap());
    assert_eq!(state.moves(), &vec![3, 3, 4, 2]);
    assert_eq!(state.cursor(), 3);
    assert_eq!(state.who(), Who::PlayerRed);
    assert_eq!(state.finished(), None);

    let state = GameState::new(None);
    assert_eq!(state.position(), Position::new_empty());
    assert!(state.moves().is_empty());

    let state = GameState::new(Some("4444444".to_string()));
    assert_eq!(state.position(), Position::new_empty());
    assert!(state.moves().is_empty());

    let state = GameState::new(Some("hey".to_string()));
    assert_eq!(state.position(), Position::new_empty());
}

#[test]
fn the_cursor_goes_round() {
    let mut state = GameState::new(None);
    for expected in [2, 1, 0, 6, 5] {
        assert_eq!(state.key_down(Move::Left), None);
        assert_eq!(state.cursor(), expected);
    }
    for expected in [6, 0, 1] {
        assert_eq!(state.key_down(Move::Right), None);
        assert_eq!(state.cursor(), expected);
    }
}

#[test]
fn stones_are_dropped_until_the_game_is_over() {
    let mut state = GameState::new(Some("343434".to_string()));
    assert_eq!(state.try_drop(9), Dropped::Refused);
    assert_eq!(state.try_drop(2), Dropped::Placed { won: true, full: false });
    assert_eq!(state.finished(), Some(Ending::Win));
    assert_eq!(state.moves().len(), 7);
    // the game is over: the next key begins a new one
    assert_eq!(state.try_drop(0), Dropped::Reset);
    assert_eq!(state.finished(), None);
    assert_eq!(state.position(), Position::new_empty());
    assert!(state.moves().is_empty());
    assert_eq!(state.key_down(Move::Drop), Some(Dropped::Placed { won: false, full: false }));
    assert_eq!(state.position(), Position::try_from("4").unwrap());
}

#[test]
fn a_full_column_refuses_a_stone() {
    let mut state = GameState::new(Some("444444".to_string()));
    assert_eq!(state.key_down(Move::Drop), Some(Dropped::Refused));
    assert_eq!(state.moves().len(), 6);
}

#[test]
fn the_last_stone_ends_the_game_in_a_draw() {
    let mut state = GameState::new(Some("11111122222233333344444455555566666677777".to_string()));
    match state.try_drop(6) {
        Dropped::Placed { full, .. } => assert!(full),
        other => panic!("{:?}", other),
    }
    assert_eq!(state.finished(), Some(Ending::Draw));
}

#[test]
fn reset_clears_the_board_and_keeps_the_cursor() {
    let mut state = GameState::new(Some("4453".to_string()));
    state.key_down(Move::Left);
    state.reset();
    assert_eq!(state.position(), Position::new_empty());
    assert!(state.moves().is_empty());
    assert_eq!(state.cursor(), 2);
    assert_eq!(state.finished(), None);
}

#[test]
fn the_solver_plays_the_winning_column() {
    let mut state = GameState::new(Some("343434".to_string()));
    assert_eq!(state.ia_move(), 2);
    assert_eq!(state.key_down(Move::IA), Some(Dropped::Placed { won: true, full: false }));
}

#[test]
fn cells_are_drawn_stones_first() {
    let state = GameState::new(Some("112".to_string()));
    let (cells, who) = state.discs();
    assert_eq!(who, Who::PlayerYellow);
    assert_eq!(cells.len(), 42);
    assert_eq!(cells[0], Disc { column: 0, row: 0, color: Palette::Red });
    assert_eq!(cells[1], Disc { column: 0, row: 1, color: Palette::Yellow });
    assert_eq!(cells[2], Disc { column: 1, row: 0, color: Palette::Red });
    // then the empty cells, column after column, from the lowest up
    assert_eq!(cells[3], Disc { column: 0, row: 2, color: Palette::White });
    assert_eq!(cells[6], Disc { column: 0, row: 5, color: Palette::White });
    assert_eq!(cells[7], Disc { column: 1, row: 1, color: Palette::White });
    assert_eq!(cells[41], Disc { column: 6, row: 5, color: Palette::White });

    let (cells, who) = GameState::new(None).discs();
    assert_eq!(who, Who::PlayerRed);
    assert!(cells.iter().all(|disc| disc.color == Palette::White));
    assert_eq!(cells.len(), 42);

    let full = GameState::new(Some("111111222222333333444444555555666666777777".to_string()));
    let (cells, who) = full.discs();
    assert_eq!(cells.len(), 42);
    assert_eq!(who, Who::PlayerRed);
    assert!(cells.iter().all(|disc| disc.color != Palette::White));
}

#[test]
fn keys_ask_for_moves() {
    assert_eq!(Move::from_keycode(Key::Left), Some(Move::Left));
    assert_eq!(Move::from_keycode(Key::Right), Some(Move::Right));
    for key in [Key::Down, Key::NumpadEnter, Key::Return, Key::Space] {
        assert_eq!(Move::from_keycode(key), Some(Move::Drop));
    }
    assert_eq!(Move::from_keycode(Key::I), Some(Move::IA));
    assert_eq!(Move::from_keycode(Key::Other), None);
}
