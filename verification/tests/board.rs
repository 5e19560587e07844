use connect_four::mask::Mask;
use connect_four::position::{bottom_row_mask, grid_size, read_columns, Position};
use connect_four::text::{chars_of, digit_str, push_decimal, push_natural};

fn at(text: &str) -> Position {
    Position::try_from(text).unwrap()
}

#[test]
fn empty_position_holds_nothing() {
    let pos = Position::new_empty();
    assert_eq!(pos.player_mask(), 0);
    assert_eq!(pos.pieces_mask(), 0);
    assert_eq!(pos.move_count(), 0);
    assert_eq!(pos.key(), 0);
    assert!(!pos.is_terminal());
    assert!(!pos.can_win());
    assert_eq!(pos.possible_moves(), vec![0, 1, 2, 3, 4, 5, 6]);
    assert_eq!(Position::try_from(""), Ok(pos));
}

#[test]
fn max_moves_is_the_number_of_cells() {
    assert_eq!(Position::max_moves(), 42);
}

#[test]
fn a_move_adds_one_stone_and_swaps_the_players() {
    let before = at("4453");
    let after = before.next(2);
    assert_eq!(after.move_count(), before.move_count() + 1);
    assert_eq!(
        Position::pop_count(after.pieces_mask()),
        Position::pop_count(before.pieces_mask()) + 1
    );
    assert_eq!(after.player_mask(), before.player_mask() ^ before.pieces_mask());
    assert_eq!(after.pieces_mask(), before.pieces_mask() | (1 << 15));
    assert_eq!(after.player_mask() & after.pieces_mask(), after.player_mask());
    assert_eq!(after.pieces_mask() & !0xfdfbf7efdfbfu64, 0);
}

#[test]
fn masks_of_the_columns() {
    assert_eq!(Position::bottom_mask(0), 1);
    assert_eq!(Position::bottom_mask(6), 1 << 42);
    assert_eq!(Position::top_mask(0), 1 << 5);
    assert_eq!(Position::top_mask(3), 1 << 26);
    assert_eq!(Position::column_mask(1), 63 << 7);
}

#[test]
fn pop_count_counts_bits() {
    assert_eq!(Position::pop_count(0), 0);
    assert_eq!(Position::pop_count(1), 1);
    assert_eq!(Position::pop_count(0xfdfbf7efdfbf), 42);
    assert_eq!(Position::pop_count(u64::MAX), 64);
}

#[test]
fn key_is_the_sum_of_the_masks() {
    let pos = at("111");
    assert_eq!(pos.key(), 2 + 7);
    assert!(pos.key() < 1 << 49);
}

#[test]
fn keys_tell_positions_apart() {
    let texts = ["", "1", "2", "12", "21", "11", "1122", "1212", "2121", "444", "4444"];
    for a in texts {
        for b in texts {
            let (p, q) = (at(a), at(b));
            assert_eq!(p.key() == q.key(), p == q, "{} {}", a, b);
        }
    }
}

#[test]
fn out_of_range_digits_are_invalid_moves() {
    assert_eq!(Position::try_from("8"), Err("Position contains an invalid move."));
    assert_eq!(Position::try_from("120"), Err("Position contains an invalid move."));
    assert_eq!(Position::try_from("9"), Err("Position contains an invalid move."));
    assert_eq!(Position::try_from("12 3"), Err("Not a position."));
    assert_eq!(Position::try_from("8x"), Err("Not a position."));
    assert_eq!(Position::try_from("1é"), Err("Not a position."));
}

#[test]
fn columns_are_read_from_digits() {
    assert_eq!(read_columns("1270"), Some(vec![0, 1, 6, 255]));
    assert_eq!(read_columns(""), Some(vec![]));
    assert_eq!(read_columns("1a"), None);
}

#[test]
fn a_sequence_of_moves_is_replayed() {
    assert_eq!(Position::from_move_sequence(&vec![0, 0, 0]), Position::try_from("111"));
    assert_eq!(
        Position::from_move_sequence(&vec![0, 7]),
        Err("Position contains an invalid move.")
    );
    assert_eq!(
        Position::from_move_sequence(&vec![5, 5, 5, 5, 5, 5, 5]),
        Err("Position contains an invalid move.")
    );
    // a position that is already won is returned all the same
    assert!(Position::from_move_sequence(&vec![3, 3, 2, 2, 4, 4, 1, 1]).is_ok());
}

#[test]
fn pieces_after_a_sequence_are_those_of_a_game_played_move_by_move() {
    let moves: Vec<u8> = vec![3, 3, 2, 4, 4, 1, 0, 3, 6, 6, 6];
    let mut pos = Position::new_empty();
    let mut heights = [0u64; 7];
    let mut pieces = 0u64;
    for m in moves.iter() {
        assert!(pos.can_play(*m));
        pos = pos.next(*m);
        pieces |= 1 << (*m as u64 * 7 + heights[*m as usize]);
        heights[*m as usize] += 1;
    }
    let replayed = Position::from_move_sequence(&moves).unwrap();
    assert_eq!(replayed, pos);
    assert_eq!(replayed.pieces_mask(), pieces);
}

#[test]
fn from_masks_accepts_well_formed_values_only() {
    assert!(Position::from_masks(0, 0, 0).is_some());
    assert!(Position::from_masks(0, 1, 1).is_some());
    assert!(Position::from_masks(1, 1, 1).is_none()); // the stone is the first player's
    assert!(Position::from_masks(0, 2, 1).is_none()); // a stone in the air
    assert!(Position::from_masks(0, 1, 2).is_none()); // wrong count
    assert!(Position::from_masks(0, 1 << 6, 1).is_none()); // not a cell
    assert!(Position::from_masks(2, 1, 1).is_none()); // not among the pieces
    assert!(Position::from_masks(0, 1 << 49, 1).is_none());
}

#[test]
fn full_column_cannot_be_played() {
    let pos = at("444444");
    assert!(!pos.can_play(3));
    assert!(!pos.can_play(7));
    assert!(!pos.can_play(255));
    assert_eq!(pos.possible_moves(), vec![0, 1, 2, 4, 5, 6]);
}

#[test]
fn full_board_is_terminal() {
    let pos = at("111111222222333333444444555555666666777777");
    assert!(pos.is_terminal());
    assert_eq!(pos.move_count(), 42);
    assert_eq!(pos.pieces_mask(), 0xfdfbf7efdfbf);
    assert_eq!(pos.possible_moves(), Vec::<u8>::new());
    assert!(!pos.can_win());
}

#[test]
fn can_win_sees_a_winning_column() {
    assert!(at("343434").can_win());
    assert!(at("112233").can_win());
    assert!(!at("3434").can_win());
    assert!(!at("343434").wins(3));
}

#[test]
fn four_in_a_line_in_each_direction() {
    assert!(Position::check_alignment(0b1111));
    assert!(Position::check_alignment(1 | 1 << 7 | 1 << 14 | 1 << 21));
    assert!(Position::check_alignment(1 | 1 << 8 | 1 << 16 | 1 << 24));
    assert!(Position::check_alignment(1 << 3 | 1 << 9 | 1 << 15 | 1 << 21));
    assert!(!Position::check_alignment(0b0111));
    assert!(!Position::check_alignment(1 | 1 << 7 | 1 << 14 | 1 << 28));
    assert!(!Position::check_alignment(0));
}

#[test]
fn winning_cells_of_three_in_a_row() {
    // three stones on the bottom row, columns 1 to 3: both ends win
    let stones = 1u64 << 7 | 1 << 14 | 1 << 21;
    assert_eq!(Position::compute_winning_position(stones, stones), 1 | 1 << 28);
    // three stones in a column: the cell on top wins
    assert_eq!(Position::compute_winning_position(0b111, 0b111), 0b1000);
    // a taken cell does not win
    assert_eq!(Position::compute_winning_position(0b111, 0b1111), 0);
    // a gap in the row
    let gap = 1u64 | 1 << 7 | 1 << 21;
    assert_eq!(Position::compute_winning_position(gap, gap), 1 << 14);
}

#[test]
fn move_score_counts_the_threats_made() {
    // the player to move holds columns 1 and 2 of the bottom row
    let pos = at("1122");
    assert_eq!(pos.move_score(2), 1);
    assert_eq!(pos.move_score(6), 0);
    let pos = at("225533");
    assert_eq!(pos.move_score(3), 2);
    // columns 1, 2 and 4 of the bottom row are held: column 3 completes them
    assert_eq!(pos.winning_position_mask(), 1 << 21);
    assert_eq!(Position::new_empty().winning_position_mask(), 0);
}

#[test]
fn mask_text_round_trip() {
    let text = "0000000\n0000000\n0000000\n0000000\n0000000\n0000001\n1000001\n";
    let mask = Mask::parse(text).unwrap();
    assert_eq!(mask, Mask(1 | 1 << 42 | 1 << 43));
    assert_eq!(mask.to_string(), text);
    assert_eq!(Mask::parse(" \n"), None);
    assert_eq!(Mask::parse("0000000\n0000000\n0000000\n0000000\n0000000\n0000001\n100000\n"), None);
    assert_eq!(Mask::parse("0000000\n0000000\n0000000\n0000000\n0000000\n0000001\n100000x\n"), None);
    assert_eq!(Mask::parse("0000000\n0000000\n0000000\n0000000\n0000000\n0000001\n"), None);
    // a digit other than 0 and 1 sets the bits of its number
    assert_eq!(
        Mask::parse("0000000\n0000000\n0000000\n0000000\n0000000\n0000000\n3000000\n"),
        Some(Mask(3))
    );
    let m: u64 = Mask(5).into();
    assert_eq!(m, 5);
}

#[test]
fn bottom_row_of_the_board() {
    assert_eq!(bottom_row_mask(0, 6), 0);
    assert_eq!(bottom_row_mask(1, 6), 1);
    assert_eq!(bottom_row_mask(2, 6), 1 | 1 << 7);
    assert_eq!(bottom_row_mask(7, 6), 0x40810204081);
    assert_eq!(bottom_row_mask(7, 6) * ((1 << 6) - 1), 0xfdfbf7efdfbf);
    assert_eq!(bottom_row_mask(3, 2), 1 | 1 << 3 | 1 << 6);
    assert_eq!(grid_size().width, 7);
    assert_eq!(grid_size().height, 6);
}

#[test]
fn position_text_has_two_digits_for_the_count() {
    let text = at("4444233333246").to_string();
    assert!(text.starts_with("move_count: 13\n\npieces_mask\n"));
    assert_eq!(text.len(), 16 + 12 + 56 + 1 + 12 + 56 + 1);
    let text = Position::new_empty().to_string();
    assert!(text.starts_with("move_count: 00\n"));
}

#[test]
fn white_space_around_a_mask_does_not_count() {
    let rows = "0000000\n0000000\n0000000\n0000000\n0000000\n0000000\n1000000";
    assert_eq!(Mask::parse(rows), Some(Mask(1)));
    assert_eq!(Mask::parse(&format!("\u{a0}\t {}\u{2003}\n\n", rows)), Some(Mask(1)));
    assert_eq!(Mask::parse(&rows.replace("\n", " \n\t")), Some(Mask(1)));
    // a line of its own between the rows is a row too
    assert_eq!(Mask::parse(&rows.replace("\n", "\n\n")), None);
    // rows after the first may be longer than seven digits
    assert_eq!(
        Mask::parse("0000000\n0000000\n0000000\n0000000\n0000000\n0000000\n10000001"),
        Some(Mask(1))
    );
    assert_eq!(
        Mask::parse("00000000\n0000000\n0000000\n0000000\n0000000\n0000000\n1000000"),
        None
    );
    assert!(connect_four::mask::is_whitespace(' '));
    assert!(connect_four::mask::is_whitespace('\u{3000}'));
    assert!(!connect_four::mask::is_whitespace('0'));
    assert!(!connect_four::mask::is_whitespace('\u{200b}'));
}

#[test]
fn numbers_in_decimal() {
    let mut text = String::from("n=");
    push_decimal(&mut text, -254);
    push_decimal(&mut text, 0);
    push_decimal(&mut text, 22);
    push_natural(&mut text, 4_000_000_000);
    push_decimal(&mut text, i32::MIN);
    assert_eq!(text, "n=-2540224000000000-2147483648");
    assert_eq!(digit_str(7), "7");
    assert_eq!(chars_of("a\u{e9}1"), vec!['a', '\u{e9}', '1']);
}
