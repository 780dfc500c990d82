use chess::engine::Color;
use chess::play::{match_lines, matching_candidates, replay_game};
use chess::state::ChessMove;

#[test]
fn replay_and_validate() {
    // the opening double step is recorded, then the opponent answers
    let record = vec![ChessMove { original: (3, 1), new: (3, 3) }];
    let game = replay_game(&record);

    // Black wants to double-step the e-pawn
    let start = (4, 6);
    let end = (4, 4);
    let cands = game.valid_moves(start);
    assert!(matching_candidates(&cands, end) > 0);

    // a square no pawn reaches is rejected
    assert_eq!(matching_candidates(&cands, (0, 0)), 0);
}

#[test]
fn replayed_game_is_live() {
    let record = vec![
        ChessMove { original: (3, 1), new: (3, 3) },
        ChessMove { original: (4, 6), new: (4, 4) },
    ];
    let mut game = replay_game(&record);
    assert_eq!(game.check_victory(), None);
    assert_eq!(game.get_from_pos((3, 3)).map(|p| p.color), Some(Color::White));
    assert_eq!(game.get_from_pos((4, 4)).map(|p| p.color), Some(Color::Black));
    // the replayed game accepts further play
    assert_eq!(game.move_piece((3, 3), (4, 4)).map(|p| p.color), Some(Color::Black));
}

#[test]
fn summary_lines() {
    let record = vec![
        ChessMove { original: (3, 1), new: (3, 3) },
        ChessMove { original: (4, 6), new: (4, 4) },
    ];
    let lines = match_lines(&record);
    assert_eq!(lines.len(), 2);
    assert_eq!(lines[0], "Move made from (3,1) to (3,3)");
    assert_eq!(lines[1], "Move made from (4,6) to (4,4)");
}
