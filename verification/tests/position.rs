use connect_four::mask::Mask;
use connect_four::position::{grid_size, Position};

#[test]
fn can_play_1() {
    let pos = Position::try_from("111111".to_string()).unwrap();

    assert!(!pos.can_play(0));
    for i in 1..grid_size().width {
        assert!(pos.can_play(i))
    }
}

#[test]
fn can_play_2() {
    let pos = Position::try_from("222222".to_string()).unwrap();

    assert!(pos.can_play(0));
    assert!(!pos.can_play(1));
    for i in 2..grid_size().width {
        assert!(pos.can_play(i))
    }
}

#[test]
fn wins() {
    assert!(Position::try_from("343434".to_string()).unwrap().wins(2), "Vertical");
    assert!(Position::try_from("112233".to_string()).unwrap().wins(3), "Horizontal");
    assert!(Position::try_from("1224333447".to_string()).unwrap().wins(3), "Diagonal");
    assert!(Position::try_from("444466575".to_string()).unwrap().wins(4), "Rev diagonal");
}

#[test]
fn str_1() {
    assert_eq!(
        Position::try_from("1".to_string()),
        Ok(Position::from_masks(0, 1, 1).unwrap())
    );
}

#[test]
fn str_111() {
    assert_eq!(
        Position::try_from("111".to_string()),
        Ok(Position::from_masks(2, 7, 3).unwrap())
    );
}

#[test]
fn str_22() {
    assert_eq!(
        Position::try_from("22".to_string()),
        Ok(Position::from_masks(
            1 << (grid_size().height + 1),
            (1 | 2) << (grid_size().height + 1),
            2
        )
        .unwrap())
    );
}

#[test]
fn column_full() {
    assert_eq!(
        Position::try_from("6666666".to_string()),
        Err("Position contains an invalid move.")
    )
}

#[test]
fn invalid() {
    assert_eq!(
        Position::try_from("hey".to_string()),
        Err("Not a position.")
    );
}

#[test]
fn check_alignment() {
    assert!(!Position::check_alignment(
        Mask::from(
            "
				0000000
				1100001
				0100000
				0011001
				1110111
				1011000
				1100100
			"
        )
        .into()
    ))
}

#[test]
fn test_mask_from_str() {
    assert_eq!(
        Mask((1 | 2 | 4) << (grid_size().height + 1)),
        Mask::from(
            "
			0000000
			0000000
			0000000
			0000000
			0100000
			0100000
			0100000
		"
        )
    );
    assert_eq!(
        Mask::from(
            "
			0000000
			1100001
			0100000
			0011001
			1110111
			1011000
			1100100
		"
        )
        .to_string(),
        "\
			0000000\n\
			1100001\n\
		 	0100000\n\
			0011001\n\
			1110111\n\
			1011000\n\
			1100100\n\
		"
    )
}

#[test]
fn test_display_position() {
    assert_eq!(
        Position::from_masks(2 << (grid_size().height + 1), 7 << (grid_size().height + 1), 3)
            .unwrap()
            .to_string(),
        "move_count: 03

pieces_mask
0000000
0000000
0000000
0000000
0100000
0100000
0100000

player_mask
0000000
0000000
0000000
0000000
0000000
0100000
0000000

"
    );
}
