use chess::engine::{Color, Game, Kind, Piece};
use chess::notation::{pos_to_string, string_to_pos};

#[test]
fn square_parsing() {
    assert_eq!(string_to_pos("A1"), Ok((0, 0)));
    assert_eq!(string_to_pos("F3"), Ok((5, 2)));
    assert_eq!(string_to_pos("c6"), Ok((2, 5)));
    assert_eq!(string_to_pos("H8"), Ok((7, 7)));

    assert_eq!(string_to_pos("A1 "), Err(1));
    assert_eq!(string_to_pos("I59"), Err(1));
    assert_eq!(string_to_pos("C9"), Err(2));
    assert_eq!(string_to_pos("I5"), Err(2));
    assert_eq!(string_to_pos("5C"), Err(2));
}

#[test]
fn square_printing() {
    assert_eq!(pos_to_string((3, 5)), Ok("D6".to_string()));
    assert_eq!(pos_to_string((0, 0)), Ok("A1".to_string()));
    assert_eq!(pos_to_string((7, 7)), Ok("H8".to_string()));

    assert_eq!(pos_to_string((8, 8)), Err(1));
    assert_eq!(pos_to_string((20, 1)), Err(1));
    assert_eq!(pos_to_string((2, 9)), Err(1));
}

#[test]
fn names() {
    assert_eq!(Kind::Knight.name(), "knight");
    assert_eq!(Color::White.name(), "white");
    let p = Piece { color: Color::Black, kind: Kind::Queen };
    assert_eq!(p.name(), "black queen");
    assert_eq!(chess::engine::VictoryStatus::Draw.name(), "draw");
    assert_eq!(chess::engine::VictoryStatus::InProgress.name(), "inprogress");
}

#[test]
fn move_descriptions() {
    let game = Game::new();
    let m = game.valid_moves((4, 1));
    assert_eq!(game.move_to_string(&m[0][0]), "Moving white pawn from E2 to E4");
    assert_eq!(game.moves_to_string(&m[0]), "Moving white pawn from E2 to E4");
}

#[test]
fn board_pictures() {
    let game = Game::new();
    let board = game.board_to_string(false);
    assert_eq!(
        board,
        "rnbqkbnr\
       \npppppppp\
       \n        \
       \n        \
       \n        \
       \n        \
       \nPPPPPPPP\
       \nRNBQKBNR"
    );

    let board = game.board_to_string(true);
    assert_eq!(
        board,
        "♜♞♝♛♚♝♞♜\
       \n♟♟♟♟♟♟♟♟\
       \n        \
       \n        \
       \n        \
       \n        \
       \n♙♙♙♙♙♙♙♙\
       \n♖♘♗♕♔♗♘♖"
    );
}

#[test]
fn notation_round_trip_from_start() {
    // every legal white ply from the start position survives the
    // round trip through algebraic notation
    let game = Game::new();
    for (pos, _) in game.by_color(Color::White) {
        for m in game.valid_moves(pos) {
            let s = game.move_to_an(&m, false, false);
            assert_eq!(game.an_to_move(&s, Color::White), Some(m.clone()));
        }
    }
}

#[test]
fn an_to_move_doc_story() {
    let mut game = Game::new();

    let mut m = game.an_to_move("Nc3", Color::White);
    assert_eq!(m, Some(vec![((1, 0), (2, 2))]));
    assert_eq!(game.move_to_an(&m.clone().unwrap(), true, false), "Nc3");
    assert_eq!(game.move_to_an(&m.clone().unwrap(), true, true), "♞c3");
    game.move_pieces(&m.unwrap());

    m = game.an_to_move("d5", Color::Black);
    assert_eq!(m, Some(vec![((3, 6), (3, 4))]));
    game.move_pieces(&m.unwrap());

    m = game.an_to_move("e4", Color::White);
    assert_eq!(m, Some(vec![((4, 1), (4, 3))]));
    game.move_pieces(&m.unwrap());

    m = game.an_to_move("dxe4", Color::Black);
    assert_eq!(m, Some(vec![((3, 4), (4, 3))]));
    assert_eq!(m, game.an_to_move("de4", Color::Black));
    assert_eq!(m, game.an_to_move("de", Color::Black));
    game.move_pieces(&m.unwrap());

    m = game.an_to_move("Nf3", Color::White);
    game.move_pieces(&m.unwrap());
    m = game.an_to_move("Ng5", Color::White);
    game.move_pieces(&m.unwrap());

    // both knights now reach e4, so the move must be disambiguated
    m = game.an_to_move("Ne4", Color::White);
    assert_eq!(m, None);

    m = game.an_to_move("Nce4", Color::White);
    assert_eq!(m, Some(vec![((2, 2), (4, 3))]));
    assert_eq!(m, game.an_to_move("N3e4", Color::White));
    assert_eq!(m, game.an_to_move("Nc3e4", Color::White));
    game.move_pieces(&m.unwrap());

    m = game.an_to_move("Qf3", Color::White);
    game.move_pieces(&m.unwrap());
    m = game.an_to_move("Be2", Color::White);
    game.move_pieces(&m.unwrap());
    m = game.an_to_move("b3", Color::White);
    game.move_pieces(&m.unwrap());
    m = game.an_to_move("Bb2", Color::White);
    game.move_pieces(&m.unwrap());

    m = game.an_to_move("0-0", Color::White);
    assert_eq!(m, Some(vec![((4, 0), (5, 0)), ((5, 0), (6, 0)), ((7, 0), (5, 0))]));

    m = game.an_to_move("0-0-0", Color::White);
    assert_eq!(m, Some(vec![((4, 0), (3, 0)), ((3, 0), (2, 0)), ((0, 0), (3, 0))]));
}

#[test]
fn an_round_trip_simple() {
    let game = Game::new();
    let m = game.an_to_move("Nc3", Color::White).unwrap();
    assert_eq!(game.move_to_an(&m, true, false), "Nc3");
    let m = game.an_to_move("e5", Color::Black).unwrap();
    assert_eq!(game.move_to_an(&m, true, false), "e5");
}

#[test]
fn malformed_notation_is_rejected() {
    let game = Game::new();
    assert_eq!(game.an_to_move("z", Color::White), None);
    assert_eq!(game.an_to_move("zz9", Color::White), None);
    assert_eq!(game.an_to_move("e9", Color::White), None);
    // a legal-looking move no piece can make
    assert_eq!(game.an_to_move("Qd5", Color::White), None);
}

#[test]
fn rank_disambiguation() {
    // two rooks on one file both reach a3, so the origin's rank is
    // emitted; the text then resolves back to the same move
    let mut game = Game::new_empty();
    game.set_at_pos((0, 0), Some(Piece { color: Color::White, kind: Kind::Rook }));
    game.set_at_pos((0, 4), Some(Piece { color: Color::White, kind: Kind::Rook }));
    game.set_at_pos((4, 0), Some(Piece { color: Color::White, kind: Kind::King }));
    game.set_at_pos((4, 7), Some(Piece { color: Color::Black, kind: Kind::King }));

    let m = vec![((0, 0), (0, 2))];
    let s = game.move_to_an(&m, false, false);
    assert_eq!(s, "R1a3");
    assert_eq!(game.an_to_move(&s, Color::White), Some(m));
}

#[test]
fn full_disambiguation() {
    // rivals on the origin's file and off it force both coordinates
    let mut game = Game::new_empty();
    game.set_at_pos((0, 0), Some(Piece { color: Color::White, kind: Kind::Rook }));
    game.set_at_pos((0, 4), Some(Piece { color: Color::White, kind: Kind::Rook }));
    game.set_at_pos((2, 2), Some(Piece { color: Color::White, kind: Kind::Rook }));
    game.set_at_pos((7, 0), Some(Piece { color: Color::White, kind: Kind::King }));
    game.set_at_pos((7, 7), Some(Piece { color: Color::Black, kind: Kind::King }));

    let m = vec![((0, 0), (0, 2))];
    let s = game.move_to_an(&m, false, false);
    assert_eq!(s, "Ra1a3");
    assert_eq!(game.an_to_move(&s, Color::White), Some(m));
}

#[test]
fn check_suffix() {
    let mut game = Game::new_empty();
    game.set_at_pos((0, 0), Some(Piece { color: Color::White, kind: Kind::Rook }));
    game.set_at_pos((4, 0), Some(Piece { color: Color::White, kind: Kind::King }));
    game.set_at_pos((4, 7), Some(Piece { color: Color::Black, kind: Kind::King }));
    let m = vec![((0, 0), (0, 7))];
    assert_eq!(game.move_to_an(&m, true, false), "Ra8+");
    // every suffix, the check mark included, waits for the result flag
    assert_eq!(game.move_to_an(&m, false, false), "Ra8");
}

#[test]
fn mate_suffix() {
    let mut game = Game::new_empty();
    game.set_at_pos((7, 7), Some(Piece { color: Color::Black, kind: Kind::King }));
    game.set_at_pos((6, 6), Some(Piece { color: Color::Black, kind: Kind::Pawn }));
    game.set_at_pos((7, 6), Some(Piece { color: Color::Black, kind: Kind::Pawn }));
    game.set_at_pos((0, 0), Some(Piece { color: Color::White, kind: Kind::Rook }));
    game.set_at_pos((1, 1), Some(Piece { color: Color::White, kind: Kind::King }));
    let m = vec![((0, 0), (0, 7))];
    assert_eq!(game.move_to_an(&m, true, false), "Ra8# 1-0");
    // without asking for a result, no suffix is added on a finished game
    assert_eq!(game.move_to_an(&m, false, false), "Ra8");
}

#[test]
fn promotion_notation() {
    let mut game = Game::new_empty();
    game.set_at_pos((0, 6), Some(Piece { color: Color::White, kind: Kind::Pawn }));
    game.set_at_pos((4, 0), Some(Piece { color: Color::White, kind: Kind::King }));
    game.set_at_pos((4, 6), Some(Piece { color: Color::Black, kind: Kind::King }));
    let m = vec![((0, 6), (0, 7))];
    assert_eq!(game.move_to_an(&m, false, false), "a8=Q");
}

#[test]
fn en_passant_notation() {
    let mut game = Game::new_empty();
    game.set_at_pos((4, 4), Some(Piece { color: Color::White, kind: Kind::Pawn }));
    game.set_at_pos((3, 6), Some(Piece { color: Color::Black, kind: Kind::Pawn }));
    game.set_at_pos((4, 0), Some(Piece { color: Color::White, kind: Kind::King }));
    game.set_at_pos((4, 7), Some(Piece { color: Color::Black, kind: Kind::King }));
    game.move_pieces(&vec![((3, 6), (3, 4))]);

    let ep = vec![((4, 4), (3, 4)), ((3, 4), (3, 5))];
    assert!(game.valid_moves((4, 4)).contains(&ep));
    assert_eq!(game.move_to_an(&ep, false, false), "exd6e.p.");
}
