use chess::engine::{Color, Game, Kind};
use chess::msg::{ExecuteMsg, InstantiateMsg, QueryMsg};
use chess::state::ChessMove;

#[test]
fn initial_setup() {
    let game = Game::new();
    match game.get_from_pos((2, 0)) {
        Some(piece) => {
            assert_eq!(piece.kind, Kind::Bishop);
            assert_eq!(piece.color, Color::White);
        }
        None => panic!("The piece at C1 should be a bishop."),
    }
    match game.get_from_pos((0, 0)) {
        Some(piece) => assert_eq!(piece.kind, Kind::Rook),
        None => panic!("There should be a rook here."),
    }
    assert_eq!(game.get_from_pos((3, 4)), None);
}

#[test]
fn empty_and_clear() {
    let game = Game::new_empty();
    assert_eq!(game.by_color(Color::White).len(), 0);
    assert_eq!(game.by_color(Color::Black).len(), 0);

    let mut game = Game::new();
    assert_eq!(game.by_color(Color::White).len(), 16);
    game.clear();
    assert_eq!(game.by_color(Color::White).len(), 0);
}

#[test]
fn turns() {
    let mut game = Game::new();
    assert_eq!(game.get_turn(), 1);
    game.next_turn();
    assert_eq!(game.get_turn(), 2);
}

#[test]
fn scans() {
    let game = Game::new();
    assert_eq!(game.by_color(Color::White).len(), 16);
    assert_eq!(game.by_color(Color::Black).len(), 16);
    let pieces = game.by_color(Color::White);
    assert_eq!(pieces[8].0, (0, 1));
    assert_eq!(pieces[8].1.kind, Kind::Pawn);
    assert_eq!(pieces[8].1.color, Color::White);

    assert_eq!(game.by_kind(Kind::Pawn).len(), 16);
    assert_eq!(game.by_kind(Kind::King).len(), 2);
    let pawns = game.by_kind(Kind::Pawn);
    assert_eq!(pawns[12].0, (4, 6));
    assert_eq!(pawns[12].1.color, Color::Black);

    assert_eq!(game.by_kind_and_color(Kind::Pawn, Color::Black).len(), 8);
    assert_eq!(game.by_kind_and_color(Kind::Knight, Color::White).len(), 2);
    let bishops = game.by_kind_and_color(Kind::Bishop, Color::Black);
    assert_eq!(bishops[1].0, (5, 7));
}

#[test]
fn move_piece_basics() {
    let mut game = Game::new();
    assert_eq!(game.move_piece((3, 1), (3, 2)), None);
    assert_eq!(game.get_from_pos((3, 1)), None);
    match game.get_from_pos((3, 2)) {
        Some(piece) => {
            assert_eq!(piece.kind, Kind::Pawn);
            assert_eq!(piece.color, Color::White);
        }
        None => panic!("There should be a pawn here."),
    }

    let captured = game.move_piece((3, 2), (7, 7));
    match captured {
        Some(piece) => {
            assert_eq!(piece.kind, Kind::Rook);
            assert_eq!(piece.color, Color::Black);
        }
        None => panic!("There should be a captured piece here."),
    }

    assert_eq!(game.move_piece((1, 3), (4, 0)), None);
    assert_eq!(game.move_piece((9, 9), (0, 0)), None);
}

#[test]
fn pawn_promotes_to_queen() {
    let mut game = Game::new_empty();
    game.set_at_pos(
        (0, 6),
        Some(chess::engine::Piece { color: Color::White, kind: Kind::Pawn }),
    );
    game.move_piece((0, 6), (0, 7));
    match game.get_from_pos((0, 7)) {
        Some(piece) => {
            assert_eq!(piece.kind, Kind::Queen);
            assert_eq!(piece.color, Color::White);
        }
        None => panic!("The pawn should have promoted."),
    }
}

#[test]
fn move_pieces_sequence() {
    let mut game = Game::new();
    let mut moves: Vec<((usize, usize), (usize, usize))>;

    moves = vec![((4, 1), (4, 2)), ((4, 2), (4, 3))];
    assert_eq!(game.move_pieces(&moves), None);
    match game.get_from_pos((4, 3)) {
        Some(piece) => {
            assert_eq!(piece.kind, Kind::Pawn);
            assert_eq!(piece.color, Color::White);
        }
        None => panic!("There should be a pawn here."),
    }

    moves = vec![((4, 3), (3, 7)), ((3, 7), (7, 7))];
    let captured = game.move_pieces(&moves);
    match captured {
        Some(piece) => {
            assert_eq!(piece.kind, Kind::Rook);
            assert_eq!(piece.color, Color::Black);
        }
        None => panic!("There should be a rook here."),
    }

    // an out-of-bounds sub-move rejects the whole sequence
    let before = game.by_color(Color::White).len();
    assert_eq!(game.move_pieces(&vec![((0, 1), (0, 8))]), None);
    assert_eq!(game.by_color(Color::White).len(), before);
}

#[test]
fn permissive_modes() {
    let mut game = Game::new_empty();
    game.set_at_pos(
        (3, 3),
        Some(chess::engine::Piece { color: Color::White, kind: Kind::Bishop }),
    );
    // without a king this position can still be explored permissively
    game.ignore_kings(true);
    assert_eq!(game.valid_moves((3, 3)).len(), 13);
}

#[test]
fn message_shapes() {
    let init = InstantiateMsg { admin: None };
    assert_eq!(init, init.clone());

    let q = QueryMsg::CheckMatch { host: "mario".to_string(), opponent: "bowser".to_string() };
    assert_ne!(q, QueryMsg::GetAdmin {});

    let opening = ChessMove { original: (3, 1), new: (3, 3) };
    let msg = ExecuteMsg::StartMatch { opponent: "bowser".to_string(), first_move: opening };
    match msg {
        ExecuteMsg::StartMatch { opponent, first_move } => {
            assert_eq!(opponent, "bowser");
            assert_eq!(first_move.new, (3, 3));
        }
        _ => panic!("wrong message variant"),
    }
}
