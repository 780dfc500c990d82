use chess::engine::{Color, Game, Kind, Piece, VictoryStatus};

fn white(kind: Kind) -> Option<Piece> {
    Some(Piece { color: Color::White, kind })
}

fn black(kind: Kind) -> Option<Piece> {
    Some(Piece { color: Color::Black, kind })
}

#[test]
fn twenty_opening_plies() {
    let game = Game::new();
    let mut total = 0;
    for (pos, _) in game.by_color(Color::White) {
        total += game.valid_moves(pos).len();
    }
    assert_eq!(total, 20);

    // the e-file pawn has exactly the one- and two-square advances
    let moves = game.valid_moves((4, 1));
    assert_eq!(moves.len(), 2);
    assert_eq!(moves[0], vec![((4, 1), (4, 3))]);
    assert_eq!(moves[1], vec![((4, 1), (4, 2))]);
}

#[test]
fn rook_range_on_open_board() {
    let mut game = Game::new_empty();
    game.ignore_kings(true);
    game.set_at_pos((3, 3), white(Kind::Rook));
    assert_eq!(game.valid_moves((3, 3)).len(), 14);
}

#[test]
fn king_moves_under_check_tests() {
    let mut game = Game::new_empty();
    game.set_at_pos((3, 3), black(Kind::Queen));
    game.set_at_pos((2, 1), white(Kind::King));

    assert_eq!(game.valid_moves((2, 1)).len(), 3);

    game.ignore_check(true);
    assert_eq!(game.valid_moves((2, 1)).len(), 8);
}

#[test]
fn pinned_bishop_has_no_moves() {
    let mut game = Game::new_empty();
    game.set_at_pos((4, 0), white(Kind::King));
    game.set_at_pos((4, 1), white(Kind::Bishop));
    game.set_at_pos((4, 7), black(Kind::Rook));
    game.set_at_pos((0, 7), black(Kind::King));
    assert_eq!(game.valid_moves((4, 1)).len(), 0);
}

#[test]
fn in_check_by_pawn() {
    let mut game = Game::new_empty();
    game.set_at_pos((3, 3), white(Kind::Pawn));
    game.set_at_pos((2, 4), black(Kind::King));
    assert!(game.in_check(Color::Black));
}

#[test]
fn castling_both_sides() {
    let mut game = Game::new_empty();
    game.set_at_pos((4, 0), white(Kind::King));
    game.set_at_pos((0, 0), white(Kind::Rook));
    game.set_at_pos((7, 0), white(Kind::Rook));
    game.set_at_pos((4, 7), black(Kind::King));

    let moves = game.valid_moves((4, 0));
    let kingside = vec![((4, 0), (5, 0)), ((5, 0), (6, 0)), ((7, 0), (5, 0))];
    let queenside = vec![((4, 0), (3, 0)), ((3, 0), (2, 0)), ((0, 0), (3, 0))];
    assert!(moves.contains(&kingside));
    assert!(moves.contains(&queenside));
}

#[test]
fn castling_blocked_by_occupied_square() {
    let mut game = Game::new_empty();
    game.set_at_pos((4, 0), white(Kind::King));
    game.set_at_pos((0, 0), white(Kind::Rook));
    game.set_at_pos((7, 0), white(Kind::Rook));
    game.set_at_pos((1, 0), white(Kind::Knight));
    game.set_at_pos((6, 0), white(Kind::Knight));
    game.set_at_pos((4, 7), black(Kind::King));

    let moves = game.valid_moves((4, 0));
    let kingside = vec![((4, 0), (5, 0)), ((5, 0), (6, 0)), ((7, 0), (5, 0))];
    let queenside = vec![((4, 0), (3, 0)), ((3, 0), (2, 0)), ((0, 0), (3, 0))];
    assert!(!moves.contains(&kingside));
    assert!(!moves.contains(&queenside));
}

#[test]
fn castling_blocked_by_attacked_square() {
    let mut game = Game::new_empty();
    game.set_at_pos((4, 0), white(Kind::King));
    game.set_at_pos((0, 0), white(Kind::Rook));
    game.set_at_pos((7, 0), white(Kind::Rook));
    // a black rook attacks f1, the square the king passes through
    game.set_at_pos((5, 7), black(Kind::Rook));
    game.set_at_pos((0, 7), black(Kind::King));

    let moves = game.valid_moves((4, 0));
    let kingside = vec![((4, 0), (5, 0)), ((5, 0), (6, 0)), ((7, 0), (5, 0))];
    let queenside = vec![((4, 0), (3, 0)), ((3, 0), (2, 0)), ((0, 0), (3, 0))];
    assert!(!moves.contains(&kingside));
    assert!(moves.contains(&queenside));
}

#[test]
fn castling_blocked_by_enemy_on_landing_square() {
    let mut game = Game::new_empty();
    game.set_at_pos((4, 0), white(Kind::King));
    game.set_at_pos((0, 0), white(Kind::Rook));
    game.set_at_pos((7, 0), white(Kind::Rook));
    // a black knight occupies c1, the queenside landing square,
    // without attacking any square the king crosses
    game.set_at_pos((2, 0), black(Kind::Knight));
    game.set_at_pos((4, 7), black(Kind::King));

    let moves = game.valid_moves((4, 0));
    let kingside = vec![((4, 0), (5, 0)), ((5, 0), (6, 0)), ((7, 0), (5, 0))];
    let queenside = vec![((4, 0), (3, 0)), ((3, 0), (2, 0)), ((0, 0), (3, 0))];
    assert!(moves.contains(&kingside));
    assert!(!moves.contains(&queenside));
}

#[test]
fn castling_gone_after_king_moved() {
    let mut game = Game::new_empty();
    game.set_at_pos((4, 0), white(Kind::King));
    game.set_at_pos((0, 0), white(Kind::Rook));
    game.set_at_pos((7, 0), white(Kind::Rook));
    game.set_at_pos((4, 7), black(Kind::King));

    game.move_piece((4, 0), (4, 1));
    game.move_piece((4, 1), (4, 0));
    let moves = game.valid_moves((4, 0));
    let kingside = vec![((4, 0), (5, 0)), ((5, 0), (6, 0)), ((7, 0), (5, 0))];
    assert!(!moves.contains(&kingside));
}

#[test]
fn en_passant_window() {
    let mut game = Game::new_empty();
    game.set_at_pos((4, 4), white(Kind::Pawn));
    game.set_at_pos((3, 6), black(Kind::Pawn));
    game.set_at_pos((4, 0), white(Kind::King));
    game.set_at_pos((4, 7), black(Kind::King));

    // the black pawn double-steps beside the white pawn
    game.move_pieces(&vec![((3, 6), (3, 4))]);

    let ep = vec![((4, 4), (3, 4)), ((3, 4), (3, 5))];
    assert!(game.valid_moves((4, 4)).contains(&ep));

    // one unrelated ply later the window is closed
    game.move_pieces(&vec![((4, 7), (5, 7))]);
    assert!(!game.valid_moves((4, 4)).contains(&ep));
}

#[test]
fn en_passant_needs_a_pawn() {
    let mut game = Game::new_empty();
    game.set_at_pos((4, 4), white(Kind::Pawn));
    game.set_at_pos((3, 6), black(Kind::Rook));
    game.set_at_pos((4, 0), white(Kind::King));
    game.set_at_pos((4, 7), black(Kind::King));

    // a rook double-stepping down its file earns no en-passant capture
    game.move_pieces(&vec![((3, 6), (3, 4))]);

    let ep = vec![((4, 4), (3, 4)), ((3, 4), (3, 5))];
    assert!(!game.valid_moves((4, 4)).contains(&ep));
}

#[test]
fn checkmate_in_the_corner() {
    let mut game = Game::new_empty();
    game.set_at_pos((0, 7), black(Kind::King));
    game.set_at_pos((0, 6), white(Kind::Queen));
    game.set_at_pos((1, 5), white(Kind::King));

    assert_eq!(game.check_victory(), Some((VictoryStatus::Checkmate, Color::White)));
}

#[test]
fn king_can_still_escape() {
    // the doc scenario: the queen gives check but can be captured
    let mut game = Game::new_empty();
    game.set_at_pos((1, 1), white(Kind::Queen));
    game.set_at_pos((0, 0), black(Kind::King));
    game.set_at_pos((6, 7), white(Kind::King));
    assert_eq!(game.check_victory(), None);
}

#[test]
fn stalemate_in_the_corner() {
    let mut game = Game::new_empty();
    game.set_at_pos((0, 0), black(Kind::King));
    game.set_at_pos((1, 2), white(Kind::Queen));
    // the white king is placed last, so White is the color that acted last
    game.set_at_pos((6, 7), white(Kind::King));

    assert_eq!(game.check_victory(), Some((VictoryStatus::Stalemate, Color::White)));
}

#[test]
fn fivefold_repetition_draws_exactly_at_five() {
    let mut game = Game::new();
    // each cycle of four knight plies restores the starting board,
    // adding one more standing of that position
    for cycle in 0..4 {
        for step in [((1, 0), (2, 2)), ((1, 7), (2, 5)), ((2, 2), (1, 0)), ((2, 5), (1, 7))] {
            game.move_pieces(&vec![step]);
        }
        if cycle < 3 {
            assert_eq!(game.check_victory(), None);
        }
    }
    // the starting position has now stood five times
    assert_eq!(game.check_victory(), Some((VictoryStatus::Draw, Color::White)));
}

#[test]
fn threefold_repetition_is_advisory() {
    let mut game = Game::new();
    assert!(!game.three_fold_repetition());
    for _ in 0..2 {
        for step in [((1, 0), (2, 2)), ((1, 7), (2, 5)), ((2, 2), (1, 0)), ((2, 5), (1, 7))] {
            game.move_pieces(&vec![step]);
        }
    }
    assert!(game.three_fold_repetition());
}

#[test]
fn fifty_move_rule_threshold() {
    let mut game = Game::new();
    let shuffle = [((1, 0), (2, 2)), ((1, 7), (2, 5)), ((2, 2), (1, 0)), ((2, 5), (1, 7))];
    let mut plies = 0;
    'outer: loop {
        for step in shuffle {
            if plies == 49 {
                assert!(!game.fifty_move_rule());
            }
            game.move_pieces(&vec![step]);
            plies += 1;
            if plies == 50 {
                break 'outer;
            }
        }
    }
    assert!(game.fifty_move_rule());
}

#[test]
fn captures_reset_the_clock_and_history() {
    let mut game = Game::new();
    game.move_pieces(&vec![((1, 0), (2, 2))]);
    assert!(!game.three_fold_repetition());
    // capture something: the knight takes the d7 pawn eventually
    game.move_pieces(&vec![((2, 2), (3, 4))]);
    game.move_pieces(&vec![((3, 4), (2, 6))]);
    // after a capture the history restarts, so no repetition is seen
    assert!(!game.three_fold_repetition());
}
