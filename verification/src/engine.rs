//! Board model: piece and game types, the mathematical view of a game,
//! and the primitive board operations.

use vstd::prelude::*;

pub use crate::notation::{pos_to_string, string_to_pos};

verus! {

/// The kinds of chess pieces.
#[derive(PartialEq, Eq, Structural, Clone, Copy, Debug)]
pub enum Kind {
    King,
    Queen,
    Knight,
    Bishop,
    Rook,
    Pawn,
}

/// The colors of chess pieces.
#[derive(PartialEq, Eq, Structural, Clone, Copy, Debug)]
pub enum Color {
    White,
    Black,
}

/// How a finished (or drawn) game ended.
#[derive(PartialEq, Eq, Structural, Clone, Copy, Debug)]
pub enum VictoryStatus {
    Checkmate,
    Stalemate,
    Draw,
    InProgress,
}

/// A chess piece: a color and a kind.
#[derive(PartialEq, Eq, Structural, Clone, Copy, Debug)]
pub struct Piece {
    /// The color of the piece.
    pub color: Color,
    /// The kind of piece.
    pub kind: Kind,
}

/// A board coordinate `(file, rank)`, each in `[0, 7]`;
/// `(0, 0)` is a1 and `(7, 7)` is h8, seen from the white side.
pub type Square = (usize, usize);

/// A relocation of one piece: origin and destination square.
pub type Step = (Square, Square);

/// The opposite color.
pub open spec fn other_color(c: Color) -> Color {
    match c {
        Color::White => Color::Black,
        Color::Black => Color::White,
    }
}

/// Both coordinates of a square lie on the board.
pub open spec fn sq_in_bounds(p: Square) -> bool {
    p.0 <= 7 && p.1 <= 7
}

/// The cell of a 64-element board sequence holding square `p`,
/// laid out file-major: index `file * 8 + rank`.
pub open spec fn at(b: Seq<Option<Piece>>, p: Square) -> Option<Piece> {
    b[p.0 as int * 8 + p.1 as int]
}

/// The board sequence with square `p` replaced by `v`.
pub open spec fn put(b: Seq<Option<Piece>>, p: Square, v: Option<Piece>) -> Seq<Option<Piece>> {
    b.update(p.0 as int * 8 + p.1 as int, v)
}

/// The part of a game that move generation and check detection read:
/// the board, the last executed step, the four castling rights and the
/// two permissive flags.
#[verifier::ext_equal]
pub struct BoardState {
    pub board: Seq<Option<Piece>>,
    pub last: Step,
    pub white_left: bool,
    pub white_right: bool,
    pub black_left: bool,
    pub black_right: bool,
    pub ignore_kings: bool,
    pub ignore_check: bool,
}

/// The snapshots a history vector stands for.
pub open spec fn hview(h: Seq<Vec<Option<Piece>>>) -> Seq<Seq<Option<Piece>>> {
    h.map_values(|v: Vec<Option<Piece>>| v@)
}

proof fn lemma_hview_push(h: Seq<Vec<Option<Piece>>>, v: Vec<Option<Piece>>)
    ensures
        hview(h.push(v)) == hview(h).push(v@),
{
    assert(hview(h.push(v)) =~= hview(h).push(v@));
}

/// The mathematical view of a whole game.
#[verifier::ext_equal]
pub struct GameView {
    pub turn: u32,
    pub board: Seq<Option<Piece>>,
    pub ignore_kings: bool,
    pub ignore_check: bool,
    pub last: Step,
    pub white_left: bool,
    pub white_right: bool,
    pub black_left: bool,
    pub black_right: bool,
    pub history: Seq<Seq<Option<Piece>>>,
    pub clock: u32,
    pub last_color: Color,
}

impl GameView {
    /// The board has its 64 cells and every history snapshot does too.
    pub open spec fn wf(self) -> bool {
        &&& self.board.len() == 64
        &&& forall|i: int| 0 <= i < self.history.len() ==> (#[trigger] self.history[i]).len() == 64
    }

    /// The projection that move generation depends on.
    pub open spec fn bstate(self) -> BoardState {
        BoardState {
            board: self.board,
            last: self.last,
            white_left: self.white_left,
            white_right: self.white_right,
            black_left: self.black_left,
            black_right: self.black_right,
            ignore_kings: self.ignore_kings,
            ignore_check: self.ignore_check,
        }
    }
}

/// A game of chess: the board plus castling rights, the last step made,
/// the halfmove clock, the snapshot history used for repetition draws,
/// and two permissive flags for special setups.
pub struct Game {
    pub(crate) turn: u32,
    pub(crate) board: Vec<Option<Piece>>,
    pub(crate) ignore_kings: bool,
    pub(crate) ignore_check: bool,
    pub(crate) last: Step,
    pub(crate) white_left: bool,
    pub(crate) white_right: bool,
    pub(crate) black_left: bool,
    pub(crate) black_right: bool,
    pub(crate) history: Vec<Vec<Option<Piece>>>,
    pub(crate) clock: u32,
    pub(crate) last_color: Color,
}

impl View for Game {
    type V = GameView;

    closed spec fn view(&self) -> GameView {
        GameView {
            turn: self.turn,
            board: self.board@,
            ignore_kings: self.ignore_kings,
            ignore_check: self.ignore_check,
            last: self.last,
            white_left: self.white_left,
            white_right: self.white_right,
            black_left: self.black_left,
            black_right: self.black_right,
            history: hview(self.history@),
            clock: self.clock,
            last_color: self.last_color,
        }
    }
}

/// The piece standing on square `(x, y)` at the start of a game,
/// if any.
pub open spec fn spec_initial_cell(x: int, y: int) -> Option<Piece> {
    if y == 1 {
        Some(Piece { color: Color::White, kind: Kind::Pawn })
    } else if y == 6 {
        Some(Piece { color: Color::Black, kind: Kind::Pawn })
    } else if y == 0 || y == 7 {
        let c = if y == 0 { Color::White } else { Color::Black };
        let k = if x == 0 || x == 7 {
            Kind::Rook
        } else if x == 1 || x == 6 {
            Kind::Knight
        } else if x == 2 || x == 5 {
            Kind::Bishop
        } else if x == 3 {
            Kind::Queen
        } else {
            Kind::King
        };
        Some(Piece { color: c, kind: k })
    } else {
        None
    }
}

/// The standard starting board.
pub open spec fn initial_board() -> Seq<Option<Piece>> {
    Seq::new(64, |i: int| spec_initial_cell(i / 8, i % 8))
}

/// The view of a freshly created standard game.
pub open spec fn spec_new_game() -> GameView {
    GameView {
        turn: 1,
        board: initial_board(),
        ignore_kings: false,
        ignore_check: false,
        last: ((0usize, 0usize), (0usize, 0usize)),
        white_left: true,
        white_right: true,
        black_left: true,
        black_right: true,
        history: seq![initial_board()],
        clock: 0,
        last_color: Color::Black,
    }
}

/// The empty board.
pub open spec fn empty_board() -> Seq<Option<Piece>> {
    Seq::new(64, |i: int| None::<Piece>)
}

fn initial_cell(x: usize, y: usize) -> (r: Option<Piece>)
    requires
        x <= 7,
        y <= 7,
    ensures
        r == spec_initial_cell(x as int, y as int),
{
    if y == 1 {
        Some(Piece { color: Color::White, kind: Kind::Pawn })
    } else if y == 6 {
        Some(Piece { color: Color::Black, kind: Kind::Pawn })
    } else if y == 0 || y == 7 {
        let c = if y == 0 { Color::White } else { Color::Black };
        let k = if x == 0 || x == 7 {
            Kind::Rook
        } else if x == 1 || x == 6 {
            Kind::Knight
        } else if x == 2 || x == 5 {
            Kind::Bishop
        } else if x == 3 {
            Kind::Queen
        } else {
            Kind::King
        };
        Some(Piece { color: c, kind: k })
    } else {
        None
    }
}

impl Game {
    /// Creates a new game with all pieces in their starting squares.
    pub fn new() -> (g: Game)
        ensures
            g@.wf(),
            g@.turn == 1,
            g@.board == initial_board(),
            !g@.ignore_kings,
            !g@.ignore_check,
            g@.last == (((0usize, 0usize), (0usize, 0usize))),
            g@.white_left && g@.white_right && g@.black_left && g@.black_right,
            g@.history =~= seq![initial_board()],
            g@.clock == 0,
            g@.last_color == Color::Black,
            g@ == spec_new_game(),
    {
        let mut board: Vec<Option<Piece>> = Vec::new();
        let mut x: usize = 0;
        while x < 8
            invariant
                x <= 8,
                board@.len() == x * 8,
                forall|i: int|
                    0 <= i < board@.len() ==> board@[i] == spec_initial_cell(i / 8, i % 8),
            decreases 8 - x,
        {
            let mut y: usize = 0;
            while y < 8
                invariant
                    x < 8,
                    y <= 8,
                    board@.len() == x * 8 + y,
                    forall|i: int|
                        0 <= i < board@.len() ==> board@[i] == spec_initial_cell(i / 8, i % 8),
                decreases 8 - y,
            {
                board.push(initial_cell(x, y));
                y += 1;
            }
            x += 1;
        }
        let mut g = Game {
            turn: 1,
            board,
            ignore_kings: false,
            ignore_check: false,
            last: ((0, 0), (0, 0)),
            white_left: true,
            white_right: true,
            black_left: true,
            black_right: true,
            history: Vec::new(),
            clock: 0,
            last_color: Color::Black,
        };
        proof {
            assert(g.board@ =~= initial_board());
        }
        g.save_board();
        proof {
            assert(g@ =~= spec_new_game());
        }
        g
    }

    /// Creates a new game with an empty board.
    pub fn new_empty() -> (g: Game)
        ensures
            g@.wf(),
            g@.turn == 1,
            g@.board == empty_board(),
            !g@.ignore_kings,
            !g@.ignore_check,
            g@.last == (((0usize, 0usize), (0usize, 0usize))),
            g@.white_left && g@.white_right && g@.black_left && g@.black_right,
            g@.history =~= seq![empty_board()],
            g@.clock == 0,
            g@.last_color == Color::Black,
    {
        let mut board: Vec<Option<Piece>> = Vec::new();
        let mut i: usize = 0;
        while i < 64
            invariant
                i <= 64,
                board@.len() == i,
                forall|j: int| 0 <= j < board@.len() ==> board@[j] is None,
            decreases 64 - i,
        {
            board.push(None);
            i += 1;
        }
        let mut g = Game {
            turn: 1,
            board,
            ignore_kings: false,
            ignore_check: false,
            last: ((0, 0), (0, 0)),
            white_left: true,
            white_right: true,
            black_left: true,
            black_right: true,
            history: Vec::new(),
            clock: 0,
            last_color: Color::Black,
        };
        proof {
            assert(g.board@ =~= empty_board());
        }
        g.save_board();
        g
    }

    /// Empties the board and forgets the last step made.
    pub fn clear(&mut self)
        requires
            old(self)@.wf(),
        ensures
            final(self)@.wf(),
            final(self)@ == (GameView {
                board: empty_board(),
                last: ((0usize, 0usize), (0usize, 0usize)),
                ..old(self)@
            }),
    {
        let mut board: Vec<Option<Piece>> = Vec::new();
        let mut i: usize = 0;
        while i < 64
            invariant
                i <= 64,
                board@.len() == i,
                forall|j: int| 0 <= j < board@.len() ==> board@[j] is None,
            decreases 64 - i,
        {
            board.push(None);
            i += 1;
        }
        self.board = board;
        self.last = ((0, 0), (0, 0));
        proof {
            assert(self.board@ =~= empty_board());
        }
    }

    /// Tells the game whether to tolerate a missing king.
    ///
    /// Check tests still run, but they report "not in check" instead of
    /// being rejected when the king is absent.  Useful for special setups.
    pub fn ignore_kings(&mut self, ignore: bool)
        ensures
            final(self)@ == (GameView { ignore_kings: ignore, ..old(self)@ }),
    {
        self.ignore_kings = ignore;
    }

    /// Tells the game whether to skip check tests entirely.
    pub fn ignore_check(&mut self, ignore: bool)
        ensures
            final(self)@ == (GameView { ignore_check: ignore, ..old(self)@ }),
    {
        self.ignore_check = ignore;
    }

    /// The piece at the given square, or `None` for an empty square.
    pub fn get_from_pos(&self, pos: Square) -> (r: Option<Piece>)
        requires
            self@.wf(),
            sq_in_bounds(pos),
        ensures
            r == at(self@.board, pos),
    {
        self.board[pos.0 * 8 + pos.1]
    }

    /// Puts a piece on the given square (or empties it with `None`).
    ///
    /// Placing a piece also records its color as the color that acted
    /// last.
    pub fn set_at_pos(&mut self, pos: Square, piece: Option<Piece>)
        requires
            old(self)@.wf(),
            sq_in_bounds(pos),
        ensures
            final(self)@.wf(),
            final(self)@ == (GameView {
                board: put(old(self)@.board, pos, piece),
                last_color: match piece {
                    Some(p) => p.color,
                    None => old(self)@.last_color,
                },
                ..old(self)@
            }),
    {
        if let Some(p) = piece {
            self.last_color = p.color;
        }
        self.board.set(pos.0 * 8 + pos.1, piece);
    }

    /// The current turn number.
    pub fn get_turn(&self) -> (r: u32)
        ensures
            r == self@.turn,
    {
        self.turn
    }

    /// Advances the game to the next turn.
    pub fn next_turn(&mut self)
        requires
            old(self)@.turn < u32::MAX,
        ensures
            final(self)@ == (GameView { turn: (old(self)@.turn + 1) as u32, ..old(self)@ }),
    {
        self.turn = self.turn + 1;
    }

    /// Appends a snapshot of the current board to the history.
    fn save_board(&mut self)
        requires
            old(self)@.wf(),
        ensures
            final(self)@.wf(),
            final(self)@ == (GameView {
                history: old(self)@.history.push(old(self)@.board),
                ..old(self)@
            }),
    {
        let snap = copy_board(&self.board);
        self.history.push(snap);
        proof {
            assert(self@.history =~= old(self)@.history.push(old(self)@.board));
        }
    }
}

/// A step takes place only when both squares are on the board and the
/// origin is occupied; otherwise the board stays untouched.
pub open spec fn step_happens(b: Seq<Option<Piece>>, from: Square, to: Square) -> bool {
    sq_in_bounds(from) && sq_in_bounds(to) && at(b, from) is Some
}

/// A pawn arriving on the farthest rank becomes a queen; every other
/// piece is carried over unchanged.
pub open spec fn promoted(p: Piece, to: Square) -> Piece {
    if p.kind == Kind::Pawn && p.color == Color::White && to.1 == 7 {
        Piece { color: Color::White, kind: Kind::Queen }
    } else if p.kind == Kind::Pawn && p.color == Color::Black && to.1 == 0 {
        Piece { color: Color::Black, kind: Kind::Queen }
    } else {
        p
    }
}

/// A departing king, or a departing rook on its original file, revokes
/// the matching castling right for good.
pub open spec fn revokes_left(p: Piece, c: Color, from: Square) -> bool {
    p.color == c && (p.kind == Kind::King || (p.kind == Kind::Rook && from.0 == 0))
}

/// As `revokes_left`, for the kingside right.
pub open spec fn revokes_right(p: Piece, c: Color, from: Square) -> bool {
    p.color == c && (p.kind == Kind::King || (p.kind == Kind::Rook && from.0 != 0 && from.0 == 7))
}

/// The board-state effect of relocating the occupant of `from` to `to`:
/// the occupant (promoted if it is a pawn reaching the back rank) lands
/// on `to`, `from` is emptied, the step is recorded as the last one, and
/// castling rights are revoked as appropriate.  A step that does not
/// happen leaves everything unchanged.
pub open spec fn spec_step(s: BoardState, from: Square, to: Square) -> BoardState {
    if !step_happens(s.board, from, to) {
        s
    } else {
        let p = at(s.board, from).unwrap();
        BoardState {
            board: put(put(s.board, to, Some(promoted(p, to))), from, None),
            last: (from, to),
            white_left: s.white_left && !revokes_left(p, Color::White, from),
            white_right: s.white_right && !revokes_right(p, Color::White, from),
            black_left: s.black_left && !revokes_left(p, Color::Black, from),
            black_right: s.black_right && !revokes_right(p, Color::Black, from),
            ..s
        }
    }
}

/// What a step returns: the piece that stood on `to` before it, or
/// `None` when nothing moved or nothing was captured.
pub open spec fn spec_captured(s: BoardState, from: Square, to: Square) -> Option<Piece> {
    if step_happens(s.board, from, to) {
        at(s.board, to)
    } else {
        None
    }
}

/// The halfmove clock after a step: reset on a capture or a pawn move,
/// incremented on any other step, untouched when nothing moved.
pub open spec fn spec_clock_after(g: GameView, from: Square, to: Square) -> u32 {
    if step_happens(g.board, from, to) {
        let p = at(g.board, from).unwrap();
        if at(g.board, to) is Some || p.kind == Kind::Pawn {
            0u32
        } else {
            (g.clock + 1) as u32
        }
    } else {
        g.clock
    }
}

/// The whole-game effect of `Game::move_piece`: the board-state effect
/// of the step, the clock rule, and the mover's color recorded as the
/// color that acted last.  Turn and history stay untouched.
pub open spec fn spec_move_piece(g: GameView, from: Square, to: Square) -> GameView {
    if !step_happens(g.board, from, to) {
        g
    } else {
        let p = at(g.board, from).unwrap();
        let s = spec_step(g.bstate(), from, to);
        GameView {
            board: s.board,
            last: s.last,
            white_left: s.white_left,
            white_right: s.white_right,
            black_left: s.black_left,
            black_right: s.black_right,
            clock: spec_clock_after(g, from, to),
            last_color: p.color,
            ..g
        }
    }
}

impl Game {
    /// Relocates the occupant of `from` to `to`, returning the captured
    /// piece if any.  Nothing at all happens when either square is out
    /// of bounds or `from` is empty.  The move is not checked for
    /// legality; pair it with `valid_moves` when playing proper chess.
    #[verifier::rlimit(60)]
    pub fn move_piece(&mut self, from: Square, to: Square) -> (r: Option<Piece>)
        requires
            old(self)@.wf(),
            old(self)@.clock < u32::MAX,
        ensures
            final(self)@.wf(),
            final(self)@ == spec_move_piece(old(self)@, from, to),
            r == spec_captured(old(self)@.bstate(), from, to),
    {
        if from.0 > 7 || from.1 > 7 || to.0 > 7 || to.1 > 7 {
            return None;
        }
        let mut moving = self.get_from_pos(from);
        let other = self.get_from_pos(to);
        match moving {
            Some(p) => {
                if other.is_some() {
                    self.clock = 0;
                } else {
                    self.clock = self.clock + 1;
                }

                if p.kind == Kind::Pawn {
                    self.clock = 0;
                    if p.color == Color::White && to.1 == 7 {
                        moving = Some(Piece { color: Color::White, kind: Kind::Queen });
                    } else if p.color == Color::Black && to.1 == 0 {
                        moving = Some(Piece { color: Color::Black, kind: Kind::Queen });
                    }
                } else if p.kind == Kind::King {
                    match p.color {
                        Color::White => {
                            self.white_left = false;
                            self.white_right = false;
                        }
                        Color::Black => {
                            self.black_left = false;
                            self.black_right = false;
                        }
                    }
                } else if p.kind == Kind::Rook {
                    match p.color {
                        Color::White => {
                            if from.0 == 0 {
                                self.white_left = false;
                            } else if from.0 == 7 {
                                self.white_right = false;
                            }
                        }
                        Color::Black => {
                            if from.0 == 0 {
                                self.black_left = false;
                            } else if from.0 == 7 {
                                self.black_right = false;
                            }
                        }
                    }
                }

                self.set_at_pos(to, moving);
                self.set_at_pos(from, None);
                self.last = (from, to);
                proof {
                    let e = spec_move_piece(old(self)@, from, to);
                    assert(moving == Some(promoted(p, to)));
                    assert(self@.board =~= e.board);
                    assert(self@.clock == e.clock);
                    assert(self@.white_left == e.white_left);
                    assert(self@.white_right == e.white_right);
                    assert(self@.black_left == e.black_left);
                    assert(self@.black_right == e.black_right);
                    assert(self@ =~= e);
                }
                other
            }
            None => None,
        }
    }
}

/// The pieces satisfying `f`, with their squares, gathered rank by rank:
/// a1 through h1, then a2 through h2, up to h8.  `n` counts how many of
/// the 64 squares have been scanned.
pub open spec fn scan_ranks(
    b: Seq<Option<Piece>>,
    f: spec_fn(Piece) -> bool,
    n: int,
) -> Seq<(Square, Piece)>
    decreases n,
{
    if n <= 0 {
        Seq::empty()
    } else {
        let i = n - 1;
        let sq = ((i % 8) as usize, (i / 8) as usize);
        let tail = match at(b, sq) {
            Some(p) => if f(p) {
                seq![(sq, p)]
            } else {
                Seq::empty()
            },
            None => Seq::empty(),
        };
        scan_ranks(b, f, n - 1) + tail
    }
}

/// As `scan_ranks`, but file by file: a1 through a8, then b1 through
/// b8, up to h8.
pub open spec fn scan_files(
    b: Seq<Option<Piece>>,
    f: spec_fn(Piece) -> bool,
    n: int,
) -> Seq<(Square, Piece)>
    decreases n,
{
    if n <= 0 {
        Seq::empty()
    } else {
        let i = n - 1;
        let sq = ((i / 8) as usize, (i % 8) as usize);
        let tail = match at(b, sq) {
            Some(p) => if f(p) {
                seq![(sq, p)]
            } else {
                Seq::empty()
            },
            None => Seq::empty(),
        };
        scan_files(b, f, n - 1) + tail
    }
}

/// All pieces of a color, in rank-by-rank scan order.
pub open spec fn spec_by_color(b: Seq<Option<Piece>>, color: Color) -> Seq<(Square, Piece)> {
    scan_ranks(b, |p: Piece| p.color == color, 64)
}

/// All pieces of a kind, in rank-by-rank scan order.
pub open spec fn spec_by_kind(b: Seq<Option<Piece>>, kind: Kind) -> Seq<(Square, Piece)> {
    scan_ranks(b, |p: Piece| p.kind == kind, 64)
}

/// All pieces of a kind and color, in file-by-file scan order.
pub open spec fn spec_by_kind_and_color(
    b: Seq<Option<Piece>>,
    kind: Kind,
    color: Color,
) -> Seq<(Square, Piece)> {
    scan_files(b, |p: Piece| p.kind == kind && p.color == color, 64)
}

impl Game {
    /// All pieces of the given color with their squares, gathered rank
    /// by rank from a1 to h8.
    pub fn by_color(&self, color: Color) -> (r: Vec<(Square, Piece)>)
        requires
            self@.wf(),
        ensures
            r@ == spec_by_color(self@.board, color),
    {
        let mut pieces: Vec<(Square, Piece)> = Vec::new();
        let mut y: usize = 0;
        while y < 8
            invariant
                self@.wf(),
                y <= 8,
                pieces@ == scan_ranks(self@.board, |p: Piece| p.color == color, y as int * 8),
            decreases 8 - y,
        {
            let mut x: usize = 0;
            while x < 8
                invariant
                    self@.wf(),
                    y < 8,
                    x <= 8,
                    pieces@ == scan_ranks(
                        self@.board,
                        |p: Piece| p.color == color,
                        y as int * 8 + x as int,
                    ),
                decreases 8 - x,
            {
                if let Some(piece) = self.get_from_pos((x, y)) {
                    if piece.color == color {
                        pieces.push(((x, y), piece));
                    }
                }
                x += 1;
            }
            y += 1;
        }
        pieces
    }

    /// All pieces of the given kind with their squares, gathered rank
    /// by rank from a1 to h8.
    pub fn by_kind(&self, kind: Kind) -> (r: Vec<(Square, Piece)>)
        requires
            self@.wf(),
        ensures
            r@ == spec_by_kind(self@.board, kind),
    {
        let mut pieces: Vec<(Square, Piece)> = Vec::new();
        let mut y: usize = 0;
        while y < 8
            invariant
                self@.wf(),
                y <= 8,
                pieces@ == scan_ranks(self@.board, |p: Piece| p.kind == kind, y as int * 8),
            decreases 8 - y,
        {
            let mut x: usize = 0;
            while x < 8
                invariant
                    self@.wf(),
                    y < 8,
                    x <= 8,
                    pieces@ == scan_ranks(
                        self@.board,
                        |p: Piece| p.kind == kind,
                        y as int * 8 + x as int,
                    ),
                decreases 8 - x,
            {
                if let Some(piece) = self.get_from_pos((x, y)) {
                    if piece.kind == kind {
                        pieces.push(((x, y), piece));
                    }
                }
                x += 1;
            }
            y += 1;
        }
        pieces
    }

    /// All pieces of the given kind and color with their squares,
    /// gathered file by file from a1 to h8.
    pub fn by_kind_and_color(&self, kind: Kind, color: Color) -> (r: Vec<(Square, Piece)>)
        requires
            self@.wf(),
        ensures
            r@ == spec_by_kind_and_color(self@.board, kind, color),
    {
        let mut pieces: Vec<(Square, Piece)> = Vec::new();
        let mut x: usize = 0;
        while x < 8
            invariant
                self@.wf(),
                x <= 8,
                pieces@ == scan_files(
                    self@.board,
                    |p: Piece| p.kind == kind && p.color == color,
                    x as int * 8,
                ),
            decreases 8 - x,
        {
            let mut y: usize = 0;
            while y < 8
                invariant
                    self@.wf(),
                    x < 8,
                    y <= 8,
                    pieces@ == scan_files(
                        self@.board,
                        |p: Piece| p.kind == kind && p.color == color,
                        x as int * 8 + y as int,
                    ),
                decreases 8 - y,
            {
                if let Some(piece) = self.get_from_pos((x, y)) {
                    if piece.kind == kind && piece.color == color {
                        pieces.push(((x, y), piece));
                    }
                }
                y += 1;
            }
            x += 1;
        }
        pieces
    }
}

/// Every origin and destination in the list lies on the board.
pub open spec fn steps_all_in_bounds(ms: Seq<Step>) -> bool {
    forall|i: int|
        0 <= i < ms.len() ==> sq_in_bounds(#[trigger] ms[i].0) && sq_in_bounds(ms[i].1)
}

/// One applied sub-move of `move_pieces`: the piece is stepped, the
/// history is cleared when the step captured, and a snapshot of the new
/// board is appended.
pub open spec fn spec_ply_step(g: GameView, from: Square, to: Square) -> GameView {
    let c = spec_captured(g.bstate(), from, to);
    let g1 = spec_move_piece(g, from, to);
    GameView {
        history: (if c is Some {
            Seq::empty()
        } else {
            g1.history
        }).push(g1.board),
        ..g1
    }
}

/// The sub-moves of `ms` from index `i` on, applied in order to `g`;
/// `cap` carries the most recent capture seen so far.
pub open spec fn spec_run_steps(
    g: GameView,
    ms: Seq<Step>,
    cap: Option<Piece>,
    i: int,
) -> (GameView, Option<Piece>)
    decreases ms.len() - i,
{
    if i < 0 || i >= ms.len() {
        (g, cap)
    } else {
        let c = spec_captured(g.bstate(), ms[i].0, ms[i].1);
        spec_run_steps(
            spec_ply_step(g, ms[i].0, ms[i].1),
            ms,
            if c is Some {
                c
            } else {
                cap
            },
            i + 1,
        )
    }
}

/// The whole-game effect of `Game::move_pieces` together with its
/// return value: nothing at all when some sub-move is out of bounds,
/// otherwise every sub-move applied in order.
pub open spec fn spec_move_pieces(g: GameView, ms: Seq<Step>) -> (GameView, Option<Piece>) {
    if !steps_all_in_bounds(ms) {
        (g, None)
    } else {
        spec_run_steps(g, ms, None, 0)
    }
}

/// How many snapshots in `h` (looking at the first `n`) equal the most
/// recent snapshot.
pub open spec fn spec_rep_count(h: Seq<Seq<Option<Piece>>>, n: int) -> int
    decreases n,
{
    if n <= 0 {
        0
    } else {
        spec_rep_count(h, n - 1) + if h[n - 1] == h[h.len() - 1] {
            1int
        } else {
            0int
        }
    }
}

impl Game {
    /// Executes the given sub-moves as one atomic ply and returns the
    /// last piece captured, if any.  If any sub-move is out of bounds,
    /// no sub-move at all is executed and `None` is returned.  Each
    /// capture clears the snapshot history, and a snapshot is saved
    /// after every sub-move.
    #[verifier::loop_isolation(false)]
    #[verifier::rlimit(100)]
    pub fn move_pieces(&mut self, moves: &Vec<Step>) -> (r: Option<Piece>)
        requires
            old(self)@.wf(),
            old(self)@.clock + moves@.len() <= u32::MAX,
        ensures
            final(self)@.wf(),
            final(self)@ == spec_move_pieces(old(self)@, moves@).0,
            r == spec_move_pieces(old(self)@, moves@).1,
    {
        let ghost ms = moves@;
        let mut i: usize = 0;
        while i < moves.len()
            invariant
                i <= ms.len(),
                ms == moves@,
                forall|j: int|
                    0 <= j < i ==> sq_in_bounds(#[trigger] ms[j].0) && sq_in_bounds(ms[j].1),
            decreases ms.len() - i,
        {
            let from = moves[i].0;
            let to = moves[i].1;
            if from.0 > 7 || from.1 > 7 || to.0 > 7 || to.1 > 7 {
                proof {
                    assert(!(sq_in_bounds(ms[i as int].0) && sq_in_bounds(ms[i as int].1)));
                    assert(!steps_all_in_bounds(ms));
                }
                return None;
            }
            proof {
                assert(sq_in_bounds(ms[i as int].0) && sq_in_bounds(ms[i as int].1));
            }
            i += 1;
        }
        proof {
            assert(steps_all_in_bounds(ms));
        }

        let mut captured: Option<Piece> = None;
        i = 0;
        while i < moves.len()
            invariant
                i <= ms.len(),
                ms == moves@,
                steps_all_in_bounds(ms),
                self@.wf(),
                self@.clock <= old(self)@.clock + i,
                old(self)@.clock + ms.len() <= u32::MAX,
                spec_run_steps(old(self)@, ms, None, 0) == spec_run_steps(
                    self@,
                    ms,
                    captured,
                    i as int,
                ),
            decreases ms.len() - i,
        {
            let from = moves[i].0;
            let to = moves[i].1;
            let ghost pre = self@;
            let tmp = self.move_piece(from, to);
            if tmp.is_some() {
                captured = tmp;
                self.history.clear();
            }
            self.save_board();
            proof {
                assert(self@ =~= spec_ply_step(pre, from, to));
            }
            i += 1;
        }
        captured
    }

    /// The halfmove clock: plies since the last capture or pawn move.
    pub(crate) fn clock_value(&self) -> (r: u32)
        ensures
            r == self@.clock,
    {
        self.clock
    }

    /// How many snapshots the history holds.
    pub(crate) fn history_len(&self) -> (r: usize)
        ensures
            r == self@.history.len(),
    {
        self.history.len()
    }

    /// The color that acted last.
    pub(crate) fn last_mover(&self) -> (r: Color)
        ensures
            r == self@.last_color,
    {
        self.last_color
    }

    /// How many saved snapshots equal the most recent one.
    pub(crate) fn count_repetitions(&self) -> (r: usize)
        requires
            self@.wf(),
            self@.history.len() >= 1,
        ensures
            r == spec_rep_count(self@.history, self@.history.len() as int),
    {
        let mut matches: usize = 0;
        let last_i = self.history.len() - 1;
        let mut i: usize = 0;
        while i < self.history.len()
            invariant
                self@.wf(),
                i <= self@.history.len(),
                last_i == self@.history.len() - 1,
                matches == spec_rep_count(self@.history, i as int),
                matches <= i,
            decreases self@.history.len() - i,
        {
            if boards_equal(&self.history[i], &self.history[last_i]) {
                matches += 1;
            }
            i += 1;
        }
        matches
    }

    /// Whether the current board has already appeared at least three
    /// times among the saved snapshots, so that a player could claim a
    /// threefold-repetition draw.
    pub fn three_fold_repetition(&self) -> (r: bool)
        requires
            self@.wf(),
        ensures
            r == (self@.history.len() >= 3 && spec_rep_count(
                self@.history,
                self@.history.len() as int,
            ) >= 3),
    {
        if self.history.len() >= 3 {
            self.count_repetitions() >= 3
        } else {
            false
        }
    }

    /// Whether a player could invoke the fifty-move rule: at least
    /// fifty plies have passed since the last capture or pawn move.
    pub fn fifty_move_rule(&self) -> (r: bool)
        ensures
            r == (self@.clock >= 50),
    {
        self.clock >= 50
    }
}

impl Game {
    /// Whether check tests are switched off.
    pub(crate) fn ignores_check(&self) -> (r: bool)
        ensures
            r == self@.ignore_check,
    {
        self.ignore_check
    }

    /// The last step executed on the board.
    pub(crate) fn last_step(&self) -> (r: Step)
        ensures
            r == self@.last,
    {
        self.last
    }

    /// One castling-right flag, by color and side.
    pub(crate) fn castle_flag(&self, c: Color, kingside: bool) -> (r: bool)
        ensures
            r == (if c == Color::White {
                if kingside {
                    self@.white_right
                } else {
                    self@.white_left
                }
            } else {
                if kingside {
                    self@.black_right
                } else {
                    self@.black_left
                }
            }),
    {
        if kingside {
            if matches!(c, Color::White) {
                self.white_right
            } else {
                self.black_right
            }
        } else {
            if matches!(c, Color::White) {
                self.white_left
            } else {
                self.black_left
            }
        }
    }

    /// A copy of the game carrying exactly the state that move
    /// generation and check detection read; the history, clock and turn
    /// start fresh.
    pub(crate) fn probe_clone(&self) -> (g: Game)
        requires
            self@.wf(),
        ensures
            g@.wf(),
            g@.bstate() == self@.bstate(),
    {
        let g = Game {
            turn: 1,
            board: copy_board(&self.board),
            ignore_kings: self.ignore_kings,
            ignore_check: self.ignore_check,
            last: self.last,
            white_left: self.white_left,
            white_right: self.white_right,
            black_left: self.black_left,
            black_right: self.black_right,
            history: Vec::new(),
            clock: 0,
            last_color: self.last_color,
        };
        proof {
            assert(g@.bstate() =~= self@.bstate());
        }
        g
    }

    /// Performs the board-state part of a step — relocation, promotion,
    /// castling-right revocation and last-step bookkeeping — leaving the
    /// clock, turn and history alone.  Used to simulate candidate moves.
    #[verifier::rlimit(60)]
    pub(crate) fn apply_step(&mut self, from: Square, to: Square)
        requires
            old(self)@.wf(),
        ensures
            final(self)@.wf(),
            final(self)@.bstate() == spec_step(old(self)@.bstate(), from, to),
            final(self)@.history == old(self)@.history,
    {
        if from.0 > 7 || from.1 > 7 || to.0 > 7 || to.1 > 7 {
            proof {
                assert(final(self)@.bstate() =~= spec_step(old(self)@.bstate(), from, to));
            }
            return ;
        }
        let mut moving = self.get_from_pos(from);
        match moving {
            Some(p) => {
                if p.kind == Kind::Pawn {
                    if p.color == Color::White && to.1 == 7 {
                        moving = Some(Piece { color: Color::White, kind: Kind::Queen });
                    } else if p.color == Color::Black && to.1 == 0 {
                        moving = Some(Piece { color: Color::Black, kind: Kind::Queen });
                    }
                } else if p.kind == Kind::King {
                    match p.color {
                        Color::White => {
                            self.white_left = false;
                            self.white_right = false;
                        }
                        Color::Black => {
                            self.black_left = false;
                            self.black_right = false;
                        }
                    }
                } else if p.kind == Kind::Rook {
                    match p.color {
                        Color::White => {
                            if from.0 == 0 {
                                self.white_left = false;
                            } else if from.0 == 7 {
                                self.white_right = false;
                            }
                        }
                        Color::Black => {
                            if from.0 == 0 {
                                self.black_left = false;
                            } else if from.0 == 7 {
                                self.black_right = false;
                            }
                        }
                    }
                }
                proof {
                    assert(self@.history == old(self)@.history);
                    assert(self@.wf());
                }
                self.set_at_pos(to, moving);
                self.set_at_pos(from, None);
                self.last = (from, to);
                proof {
                    let e = spec_step(old(self)@.bstate(), from, to);
                    assert(moving == Some(promoted(p, to)));
                    assert(self@.bstate().board =~= e.board);
                    assert(self@.bstate() =~= e);
                }
            }
            None => {
                proof {
                    assert(final(self)@.bstate() =~= spec_step(old(self)@.bstate(), from, to));
                }
            }
        }
    }
}

impl Game {
    /// An exact copy of the whole game, history included.
    pub(crate) fn full_clone(&self) -> (g: Game)
        requires
            self@.wf(),
        ensures
            g@ == self@,
    {
        let mut hist: Vec<Vec<Option<Piece>>> = Vec::new();
        let mut i: usize = 0;
        while i < self.history.len()
            invariant
                self@.wf(),
                i <= self@.history.len(),
                hview(hist@) =~= self@.history.subrange(0, i as int),
            decreases self@.history.len() - i,
        {
            let ghost prev = hist@;
            let snap = copy_board(&self.history[i]);
            proof {
                lemma_hview_push(prev, snap);
            }
            hist.push(snap);
            proof {
                assert(snap@ == self@.history[i as int]);
                assert(hview(hist@) == hview(prev).push(snap@));
                assert(hview(hist@) =~= self@.history.subrange(0, i as int + 1));
            }
            i += 1;
        }
        let g = Game {
            turn: self.turn,
            board: copy_board(&self.board),
            ignore_kings: self.ignore_kings,
            ignore_check: self.ignore_check,
            last: self.last,
            white_left: self.white_left,
            white_right: self.white_right,
            black_left: self.black_left,
            black_right: self.black_right,
            history: hist,
            clock: self.clock,
            last_color: self.last_color,
        };
        proof {
            assert(self@.history.subrange(0, self@.history.len() as int) =~= self@.history);
            assert(g@ =~= self@);
        }
        g
    }
}

/// Whether two board vectors agree cell for cell.
fn boards_equal(a: &Vec<Option<Piece>>, b: &Vec<Option<Piece>>) -> (r: bool)
    ensures
        r == (a@ == b@),
{
    if a.len() != b.len() {
        proof {
            assert(a@ != b@);
        }
        return false;
    }
    let mut i: usize = 0;
    while i < a.len()
        invariant
            a@.len() == b@.len(),
            i <= a@.len(),
            forall|j: int| 0 <= j < i ==> a@[j] == b@[j],
        decreases a@.len() - i,
    {
        if a[i] != b[i] {
            proof {
                assert(a@[i as int] != b@[i as int]);
            }
            return false;
        }
        i += 1;
    }
    proof {
        assert(a@ =~= b@);
    }
    true
}

/// A cell-for-cell copy of a board vector.
fn copy_board(b: &Vec<Option<Piece>>) -> (r: Vec<Option<Piece>>)
    ensures
        r@ == b@,
{
    let mut r: Vec<Option<Piece>> = Vec::new();
    let mut i: usize = 0;
    while i < b.len()
        invariant
            i <= b@.len(),
            r@ == b@.subrange(0, i as int),
        decreases b@.len() - i,
    {
        r.push(b[i]);
        i += 1;
    }
    proof {
        assert(r@ =~= b@);
    }
    r
}

} // verus!
