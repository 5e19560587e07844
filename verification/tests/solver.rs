use connect_four::outcome::Outcome;
use connect_four::position::Position;
use connect_four::solver::Solver;

fn at(text: &str) -> Position {
    Position::try_from(text).unwrap()
}

fn mirrored(text: &str) -> String {
    text.chars().map(|c| (b'8' - (c as u8 - b'0')) as char).collect()
}

#[test]
fn test_solve() {
    assert!(matches!(
        Solver::solve_str("661444666637315414455515".to_string()),
        Ok(_)
    ));
    // The player to move wins with the 39th stone, which is a score of
    // (43 - 39) / 2: no faster win is there to find.
    assert!(
        matches!(
            Solver::solve_str("4444233333246".to_string()),
            Ok((.., Outcome::Win(x))) if x == 2
        ),
        "Got {:?}",
        Solver::solve_str("4444233333246".to_string())
    );
    assert!(matches!(
        Solver::solve_str("23163416124767223154467471272416755633".to_string()),
        Ok((.., Outcome::Draw))
    ));
}

#[test]
fn solves_positions_of_the_middle_game() {
    assert_eq!(
        Solver::solve_str("661444666637315414455515".to_string()),
        Ok((2, 6, Outcome::Loose(9)))
    );
    assert!(matches!(
        Solver::solve_str("4444233333246".to_string()),
        Ok((6, _, Outcome::Win(2)))
    ));
    assert!(matches!(
        Solver::weakly_solve_str("4444233333246".to_string()),
        Ok((6, _, Outcome::Win(_)))
    ));
}

#[test]
fn weak_solve_of_a_lost_position_names_a_column_with_room() {
    // every move loses: the first column that has room is played
    let pos = at("44444433333");
    let (best, _, outcome) = Solver::weakly_solve(pos);
    assert_eq!(best, 0);
    assert!(pos.can_play(best));
    assert!(matches!(outcome, Outcome::Loose(_)));
    let (best, _, outcome) = Solver::solve(pos);
    assert!(pos.can_play(best));
    assert_eq!(outcome, Outcome::Loose(1));
    // the search itself keeps no column there
    let mut solver = Solver::new();
    assert_eq!(solver.weakly_solve_(pos).0, 255);
}

#[test]
fn negamax_takes_the_game_for_a_draw_where_its_depth_runs_out() {
    let mut solver = Solver::new();
    assert_eq!(solver.negamax(Position::new_empty(), -127, 127, 0), (3, 0));
    assert_eq!(solver.positions_checked(), 1);
    // one ply deep every reply is taken for a draw
    let mut solver = Solver::new();
    assert_eq!(solver.negamax(Position::new_empty(), -127, 127, 1), (3, 0));
    assert_eq!(solver.positions_checked(), 8);
}

#[test]
fn full_board_is_a_draw_without_a_move() {
    let pos = at("111111222222333333444444555555666666777777");
    assert_eq!(Solver::solve(pos), (255, 1, Outcome::Draw));
    assert_eq!(Solver::weakly_solve(pos), (255, 1, Outcome::Draw));
}

#[test]
fn immediate_win_is_played() {
    // six stones: the score of a win with the seventh is (43 - 6) / 2
    assert_eq!(Solver::solve(at("343434")), (2, 1, Outcome::Win(18)));
    assert_eq!(Solver::weakly_solve(at("343434")), (2, 1, Outcome::Win(18)));
    assert_eq!(Solver::solve(at("112233")), (3, 1, Outcome::Win(18)));
    // with 41 stones the last one wins with score 1
    assert_eq!(Solver::solve(at("1224333447")).0, 3);
}

#[test]
fn solving_again_gives_the_same() {
    for text in ["44444433333", "4444233333246", "661444666637315414455515", "444433"] {
        let first = Solver::solve_str(text.to_string());
        let second = Solver::solve_str(text.to_string());
        assert_eq!(first, second);
        let first = Solver::weakly_solve_str(text.to_string());
        let second = Solver::weakly_solve_str(text.to_string());
        assert_eq!(first, second);
    }
}

#[test]
fn strong_and_weak_solve_name_the_same_winner() {
    for text in [
        "4444233333246",
        "661444666637315414455515",
        "23163416124767223154467471272416755633",
        "44444433333",
        "1212121234",
        "432112344321",
    ] {
        let (_, _, strong) = Solver::solve_str(text.to_string()).unwrap();
        let (_, _, weak) = Solver::weakly_solve_str(text.to_string()).unwrap();
        assert!(strong.same_sign(&weak), "{} {:?} {:?}", text, strong, weak);
    }
}

#[test]
fn mirror_image_has_the_same_outcome() {
    for text in ["4444233333246", "661444666637315414455515", "44444433333", "1212121234"] {
        let (best, _, outcome) = Solver::solve_str(text.to_string()).unwrap();
        let (mirror_best, _, mirror_outcome) = Solver::solve_str(mirrored(text)).unwrap();
        assert_eq!(outcome, mirror_outcome, "{}", text);
        println!("{} {} {}", text, best, mirror_best);
    }
    // the winning move of this position is the only one
    let (best, _, _) = Solver::solve_str("4444233333246".to_string()).unwrap();
    let (mirror_best, _, _) = Solver::solve_str(mirrored("4444233333246")).unwrap();
    assert_eq!(mirror_best, 6 - best);
}

#[test]
fn the_column_found_can_be_played() {
    for text in ["444433", "44443333", "44444433333", "4444233333246", "661444666637315414455515"] {
        let pos = at(text);
        let (best, visited, _) = Solver::solve(pos);
        assert!(pos.can_play(best), "{}", text);
        assert!(visited >= 1);
        let (best, _, _) = Solver::weakly_solve(pos);
        assert!(pos.can_play(best), "{}", text);
    }
}

#[test]
fn invalid_text_is_not_solved() {
    assert_eq!(Solver::solve_str("hey".to_string()), Err("Not a position."));
    assert_eq!(
        Solver::weakly_solve_str("6666666".to_string()),
        Err("Position contains an invalid move.")
    );
}

#[test]
fn outcomes_from_scores() {
    assert_eq!(Outcome::from(0), Outcome::Draw);
    assert_eq!(Outcome::from(5), Outcome::Win(5));
    assert_eq!(Outcome::from(-5), Outcome::Loose(5));
    assert_eq!(Outcome::from(i8::MIN), Outcome::Loose(128));
    assert_eq!(Outcome::from(i8::MAX), Outcome::Win(127));
    assert!(Outcome::Win(3).same_sign(&Outcome::Win(9)));
    assert!(!Outcome::Win(3).same_sign(&Outcome::Loose(3)));
    assert!(!Outcome::Draw.same_sign(&Outcome::Loose(3)));
}

#[test]
fn outcomes_are_compared_as_the_solve_asks() {
    assert!(Outcome::Win(3).meets(&Outcome::Win(3), true));
    assert!(!Outcome::Win(3).meets(&Outcome::Win(4), true));
    assert!(Outcome::Win(3).meets(&Outcome::Win(4), false));
    assert!(!Outcome::Win(3).meets(&Outcome::Draw, false));
    assert!(Outcome::Draw.meets(&Outcome::Draw, true));
    assert!(Outcome::Loose(1).meets(&Outcome::Loose(9), false));
}

#[test]
fn outcomes_in_words() {
    assert_eq!(Solver::explain_outcome(at("4444233333246"), Outcome::Draw), "draw");
    // (42 - 13) / 2 - 2 + 1
    assert_eq!(
        Solver::explain_outcome(at("4444233333246"), Outcome::Win(2)),
        "win in 13 moves"
    );
    // (42 - 24) / 2 - 9 + 1
    assert_eq!(
        Solver::explain_outcome(at("661444666637315414455515"), Outcome::Loose(9)),
        "loose in 1 moves"
    );
    assert_eq!(
        Solver::explain_outcome(Position::new_empty(), Outcome::Win(255)),
        "win in -233 moves"
    );
    assert_eq!(
        Solver::explain_outcome(Position::new_empty(), Outcome::Win(0)),
        "win in 22 moves"
    );
}

#[test]
fn negamax_counts_and_remembers() {
    let mut solver = Solver::new();
    assert_eq!(solver.positions_checked(), 0);
    let found = solver.negamax(at("343434"), -127, 127, 26);
    assert_eq!(found, (2, 18));
    assert_eq!(solver.positions_checked(), 1);
    let found = solver.strongly_solve(at("661444666637315414455515"));
    assert_eq!(found, (2, -9));
    assert_eq!(solver.positions_checked(), 7);
    // the table now holds the score of the position: it is returned at once
    let found = solver.weakly_solve_(at("661444666637315414455515"));
    assert_eq!(found, (2, -9));
    assert_eq!(solver.positions_checked(), 8);
}
