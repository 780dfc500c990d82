//! Move generation, the legality filter and the check oracle, together
//! with the mathematical description of all three.
//!
//! The legality filter and the check oracle call each other at one
//! bounded level of recursion: check detection generates moves with the
//! check test disabled, and a castling simulation consults the oracle on
//! a probe board whose castling rights are already revoked.  Every
//! function in the cycle therefore decreases the number of castling
//! rights still standing, then a fixed rank in the call cycle.

use vstd::prelude::*;
use crate::engine::{
    at, other_color, promoted, scan_files, scan_ranks, spec_by_color, spec_by_kind_and_color,
    spec_step, sq_in_bounds, BoardState, Color, Game, GameView, Kind, Piece, Square, Step,
};

verus! {

/// The sequences a vector of move vectors stands for.
pub open spec fn mseq(v: Seq<Vec<Step>>) -> Seq<Seq<Step>> {
    v.map_values(|m: Vec<Step>| m@)
}

/// How many castling rights are still standing.
pub open spec fn flag_count(s: BoardState) -> int {
    (if s.white_left {
        1int
    } else {
        0int
    }) + (if s.white_right {
        1int
    } else {
        0int
    }) + (if s.black_left {
        1int
    } else {
        0int
    }) + (if s.black_right {
        1int
    } else {
        0int
    })
}

/// Some cell of the board holds the king of the given color.
pub open spec fn spec_has_king(b: Seq<Option<Piece>>, c: Color) -> bool {
    exists|i: int| 0 <= i < 64 && b[i] == Some(Piece { color: c, kind: Kind::King })
}

/// How many more squares a sliding cursor can visit before the board
/// edge stops it.
pub open spec fn ray_fuel(x: int, y: int, dx: int, dy: int) -> int {
    if dx > 0 {
        7 - x
    } else if dx < 0 {
        x
    } else if dy > 0 {
        7 - y
    } else {
        y
    }
}

/// The sliding cursor at `(x, y)` can take one more step along
/// `(dx, dy)` without leaving the board.
pub open spec fn ray_can_advance(x: int, y: int, dx: int, dy: int) -> bool {
    &&& dx > 0 ==> x < 7
    &&& dx < 0 ==> x > 0
    &&& dy > 0 ==> y < 7
    &&& dy < 0 ==> y > 0
}

/// The squares a slider standing at `(x, y)` reaches along direction
/// `(dx, dy)`: one square at a time, stopping after the first occupied
/// square (which may be a capture) or at the board edge.
pub open spec fn spec_ray(b: Seq<Option<Piece>>, x: int, y: int, dx: int, dy: int) -> Seq<Square>
    decreases ray_fuel(x, y, dx, dy),
        when -1 <= dx <= 1 && -1 <= dy <= 1 && !(dx == 0 && dy == 0) && 0 <= x <= 7 && 0 <= y <= 7
{
    if !ray_can_advance(x, y, dx, dy) {
        Seq::empty()
    } else {
        let sq = (((x + dx) as usize), ((y + dy) as usize));
        if at(b, sq) is Some {
            seq![sq]
        } else {
            seq![sq] + spec_ray(b, x + dx, y + dy, dx, dy)
        }
    }
}

/// The four orthogonal rays of a rook, in the order generation visits
/// them.
pub open spec fn spec_rook_singles(b: Seq<Option<Piece>>, pos: Square) -> Seq<Square> {
    spec_ray(b, pos.0 as int, pos.1 as int, 1, 0) + spec_ray(b, pos.0 as int, pos.1 as int, -1, 0)
        + spec_ray(b, pos.0 as int, pos.1 as int, 0, 1) + spec_ray(
        b,
        pos.0 as int,
        pos.1 as int,
        0,
        -1,
    )
}

/// The four diagonal rays of a bishop, in the order generation visits
/// them.
pub open spec fn spec_bishop_singles(b: Seq<Option<Piece>>, pos: Square) -> Seq<Square> {
    spec_ray(b, pos.0 as int, pos.1 as int, 1, 1) + spec_ray(b, pos.0 as int, pos.1 as int, 1, -1)
        + spec_ray(b, pos.0 as int, pos.1 as int, -1, 1) + spec_ray(
        b,
        pos.0 as int,
        pos.1 as int,
        -1,
        -1,
    )
}

/// The eight rays of a queen: the diagonals first, then the
/// orthogonals.
pub open spec fn spec_queen_singles(b: Seq<Option<Piece>>, pos: Square) -> Seq<Square> {
    spec_bishop_singles(b, pos) + spec_rook_singles(b, pos)
}

/// The in-bounds knight targets, in the order generation visits them.
pub open spec fn spec_knight_singles(pos: Square) -> Seq<Square> {
    let x = pos.0 as int;
    let y = pos.1 as int;
    (if x >= 1 && y >= 2 {
        seq![(((x - 1) as usize), ((y - 2) as usize))]
    } else {
        Seq::empty()
    }) + (if x >= 1 && y <= 5 {
        seq![(((x - 1) as usize), ((y + 2) as usize))]
    } else {
        Seq::empty()
    }) + (if x <= 6 && y >= 2 {
        seq![(((x + 1) as usize), ((y - 2) as usize))]
    } else {
        Seq::empty()
    }) + (if x <= 6 && y <= 5 {
        seq![(((x + 1) as usize), ((y + 2) as usize))]
    } else {
        Seq::empty()
    }) + (if x >= 2 && y >= 1 {
        seq![(((x - 2) as usize), ((y - 1) as usize))]
    } else {
        Seq::empty()
    }) + (if x >= 2 && y <= 6 {
        seq![(((x - 2) as usize), ((y + 1) as usize))]
    } else {
        Seq::empty()
    }) + (if x <= 5 && y >= 1 {
        seq![(((x + 2) as usize), ((y - 1) as usize))]
    } else {
        Seq::empty()
    }) + (if x <= 5 && y <= 6 {
        seq![(((x + 2) as usize), ((y + 1) as usize))]
    } else {
        Seq::empty()
    })
}

/// The in-bounds single-square king targets, in the order generation
/// visits them.
pub open spec fn spec_king_singles(pos: Square) -> Seq<Square> {
    let x = pos.0 as int;
    let y = pos.1 as int;
    (if x > 0 {
        seq![(((x - 1) as usize), (y as usize))] + (if y > 0 {
            seq![(((x - 1) as usize), ((y - 1) as usize))]
        } else {
            Seq::empty()
        }) + (if y < 7 {
            seq![(((x - 1) as usize), ((y + 1) as usize))]
        } else {
            Seq::empty()
        })
    } else {
        Seq::empty()
    }) + (if x < 7 {
        seq![(((x + 1) as usize), (y as usize))] + (if y > 0 {
            seq![(((x + 1) as usize), ((y - 1) as usize))]
        } else {
            Seq::empty()
        }) + (if y < 7 {
            seq![(((x + 1) as usize), ((y + 1) as usize))]
        } else {
            Seq::empty()
        })
    } else {
        Seq::empty()
    }) + (if y > 0 {
        seq![((x as usize), ((y - 1) as usize))]
    } else {
        Seq::empty()
    }) + (if y < 7 {
        seq![((x as usize), ((y + 1) as usize))]
    } else {
        Seq::empty()
    })
}

/// The pawn's forward direction: up the ranks for White, down for
/// Black.
pub open spec fn pawn_dir(c: Color) -> int {
    if c == Color::White {
        1
    } else {
        -1
    }
}

/// The en-passant condition on one side of a pawn: the adjacent file at
/// `dx` holds an opposing pawn, the capturing pawn stands on its
/// en-passant rank, and the last step was exactly that pawn
/// double-stepping into the adjacent square.
pub open spec fn spec_ep_cond(s: BoardState, pos: Square, c: Color, dx: int) -> bool {
    let dir = pawn_dir(c);
    let adj = (((pos.0 + dx) as usize), pos.1);
    &&& at(s.board, adj) is Some
    &&& at(s.board, adj).unwrap().color != c
    &&& at(s.board, adj).unwrap().kind == Kind::Pawn
    &&& pos.1 == (if c == Color::White {
        4int
    } else {
        3int
    })
    &&& s.last == ((((pos.0 + dx) as usize), ((pos.1 + 2 * dir) as usize)), adj)
}

/// Whether the guards for looking diagonally to side `dx` hold: the
/// adjacent file exists and the square ahead of it is on the board.
pub open spec fn spec_pawn_side_ok(pos: Square, c: Color, dx: int) -> bool {
    &&& (dx < 0 ==> pos.0 > 0)
    &&& (dx > 0 ==> pos.0 < 7)
    &&& (if c == Color::White {
        pos.1 < 7
    } else {
        pos.1 > 0
    })
}

/// The en-passant capture sequence on side `dx`, when its condition
/// holds: the sideways capture of the passed pawn, then the step onto
/// the vacated square behind it.
pub open spec fn spec_pawn_ep_side(s: BoardState, pos: Square, c: Color, dx: int) -> Seq<
    Seq<Step>,
> {
    let dir = pawn_dir(c);
    let adj = (((pos.0 + dx) as usize), pos.1);
    let behind = (((pos.0 + dx) as usize), ((pos.1 + dir) as usize));
    if spec_pawn_side_ok(pos, c, dx) && spec_ep_cond(s, pos, c, dx) {
        seq![seq![(pos, adj), (adj, behind)]]
    } else {
        Seq::empty()
    }
}

/// The pawn's forward targets: the double step from the starting rank
/// over two empty squares, then the single step onto an empty square.
pub open spec fn spec_pawn_front(s: BoardState, pos: Square, c: Color) -> Seq<Square> {
    let dir = pawn_dir(c);
    let start = if c == Color::White {
        1int
    } else {
        6int
    };
    let fwd1 = (pos.0, ((pos.1 + dir) as usize));
    let fwd2 = (pos.0, ((pos.1 + 2 * dir) as usize));
    (if pos.1 == start && at(s.board, fwd1) is None && at(s.board, fwd2) is None {
        seq![fwd2]
    } else {
        Seq::empty()
    }) + (if (if c == Color::White {
        pos.1 < 7
    } else {
        pos.1 > 0
    }) && at(s.board, fwd1) is None {
        seq![fwd1]
    } else {
        Seq::empty()
    })
}

/// The pawn's single-square targets: the forward steps, then the two
/// diagonal captures onto occupied squares (suppressed on a side where
/// the en-passant condition holds instead).
pub open spec fn spec_pawn_singles(s: BoardState, pos: Square, c: Color) -> Seq<Square> {
    spec_pawn_front(s, pos, c) + spec_pawn_diag(s, pos, c, -1) + spec_pawn_diag(s, pos, c, 1)
}

/// The diagonal capture target on side `dx`, when that square is
/// occupied and the en-passant condition does not claim the side.
pub open spec fn spec_pawn_diag(s: BoardState, pos: Square, c: Color, dx: int) -> Seq<Square> {
    let dir = pawn_dir(c);
    let ahead = (((pos.0 + dx) as usize), ((pos.1 + dir) as usize));
    if spec_pawn_side_ok(pos, c, dx) && at(s.board, ahead) is Some && !spec_ep_cond(
        s,
        pos,
        c,
        dx,
    ) {
        seq![ahead]
    } else {
        Seq::empty()
    }
}

/// The queenside castling sequence of color `c`, when every condition
/// holds: the king on its original square with the right intact, the
/// square it crosses empty and reachable without check, the square it
/// lands on empty, the knight's square empty, and the rook still at
/// home.  The sequence steps the king over two squares and relocates
/// the rook beside it.
pub open spec fn spec_castle_left(s: BoardState, c: Color) -> Seq<Seq<Step>>
    decreases flag_count(s), 0int, 0int,
{
    let y = if c == Color::White {
        0usize
    } else {
        7usize
    };
    let pos = (4usize, y);
    let flag = if c == Color::White {
        s.white_left
    } else {
        s.black_left
    };
    if flag && at(s.board, pos) == Some(Piece { color: c, kind: Kind::King }) && at(
        s.board,
        (3usize, y),
    ) is None && !spec_in_check(spec_step(s, pos, (3usize, y)), c) && at(
        s.board,
        (2usize, y),
    ) is None && at(s.board, (1usize, y)) is None && at(s.board, (0usize, y)) == Some(
        Piece { color: c, kind: Kind::Rook },
    ) {
        seq![
            seq![
                (pos, (3usize, y)),
                ((3usize, y), (2usize, y)),
                ((0usize, y), (3usize, y)),
            ],
        ]
    } else {
        Seq::empty()
    }
}

/// The kingside castling sequence of color `c`, under the mirrored
/// conditions of `spec_castle_left`.
pub open spec fn spec_castle_right(s: BoardState, c: Color) -> Seq<Seq<Step>>
    decreases flag_count(s), 0int, 0int,
{
    let y = if c == Color::White {
        0usize
    } else {
        7usize
    };
    let pos = (4usize, y);
    let flag = if c == Color::White {
        s.white_right
    } else {
        s.black_right
    };
    if flag && at(s.board, pos) == Some(Piece { color: c, kind: Kind::King }) && at(
        s.board,
        (5usize, y),
    ) is None && !spec_in_check(spec_step(s, pos, (5usize, y)), c) && at(
        s.board,
        (6usize, y),
    ) is None && at(s.board, (7usize, y)) == Some(Piece { color: c, kind: Kind::Rook }) {
        seq![
            seq![
                (pos, (5usize, y)),
                ((5usize, y), (6usize, y)),
                ((7usize, y), (5usize, y)),
            ],
        ]
    } else {
        Seq::empty()
    }
}

/// The pseudo-legal candidate sequences for the piece at `pos`:
/// en-passant and castling sequences first, then every single-square
/// target wrapped as a one-step sequence.  An empty square yields no
/// candidates.  Nothing here is filtered for self-check yet.
pub open spec fn spec_raw_moves(s: BoardState, pos: Square) -> Seq<Seq<Step>>
    decreases flag_count(s), 5int, 0int,
{
    match at(s.board, pos) {
        None => Seq::empty(),
        Some(piece) => {
            let specials: Seq<Seq<Step>> = match piece.kind {
                Kind::Pawn => spec_pawn_ep_side(s, pos, piece.color, -1) + spec_pawn_ep_side(
                    s,
                    pos,
                    piece.color,
                    1,
                ),
                Kind::King => {
                    let y = if piece.color == Color::White {
                        0usize
                    } else {
                        7usize
                    };
                    if pos == (4usize, y) {
                        spec_castle_left(s, piece.color) + spec_castle_right(s, piece.color)
                    } else {
                        Seq::empty()
                    }
                },
                _ => Seq::empty(),
            };
            let singles: Seq<Square> = match piece.kind {
                Kind::Pawn => spec_pawn_singles(s, pos, piece.color),
                Kind::Rook => spec_rook_singles(s.board, pos),
                Kind::Bishop => spec_bishop_singles(s.board, pos),
                Kind::Queen => spec_queen_singles(s.board, pos),
                Kind::Knight => spec_knight_singles(pos),
                Kind::King => spec_king_singles(pos),
            };
            specials + singles.map_values(|v: Square| seq![(pos, v)])
        },
    }
}

/// The legality filter's acceptance test on one candidate, from
/// sub-move `i` on: every sub-move must stay in bounds, depart from an
/// occupied square, not land on a piece of its own color, and — when
/// `tc` is set — not leave the moving side's king in check, each test
/// made on the board as the earlier sub-moves left it.
pub open spec fn spec_seq_ok(s: BoardState, m: Seq<Step>, tc: bool, i: int) -> bool
    decreases flag_count(s), (if tc {
        50int
    } else {
        10int
    }), m.len() - i,
{
    if i < 0 || i >= m.len() {
        true
    } else {
        let from = m[i].0;
        let to = m[i].1;
        if !(sq_in_bounds(from) && sq_in_bounds(to)) {
            false
        } else if at(s.board, from) is None {
            false
        } else if at(s.board, to) is Some && at(s.board, to).unwrap().color == at(
            s.board,
            from,
        ).unwrap().color {
            false
        } else if tc && spec_check_for_check(s, from, to) {
            false
        } else {
            spec_seq_ok(spec_step(s, from, to), m, tc, i + 1)
        }
    }
}

/// The members of `cands` that the legality filter accepts, in order.
pub open spec fn spec_filtered(s: BoardState, cands: Seq<Seq<Step>>, tc: bool) -> Seq<Seq<Step>>
    decreases flag_count(s), (if tc {
        55int
    } else {
        17int
    }), 0int,
{
    cands.filter(|m: Seq<Step>| spec_seq_ok(s, m, tc, 0))
}

/// The candidates of `spec_raw_moves` that pass the legality filter,
/// in generation order.
pub open spec fn spec_cvm(s: BoardState, pos: Square, tc: bool) -> Seq<Seq<Step>>
    decreases flag_count(s), (if tc {
        60int
    } else {
        20int
    }), 0int,
{
    spec_filtered(s, spec_raw_moves(s, pos), tc)
}

/// The fully filtered legal candidates for the piece at `pos`.
pub open spec fn spec_valid_moves(s: BoardState, pos: Square) -> Seq<Seq<Step>> {
    spec_cvm(s, pos, true)
}

/// Some check-blind candidate of the piece at `pos` has a sub-move
/// whose destination is `target`.
pub open spec fn spec_piece_attacks(s: BoardState, pos: Square, target: Square) -> bool
    decreases flag_count(s), 25int, 0int,
{
    let mvs = spec_cvm(s, pos, false);
    exists|j: int, k: int|
        0 <= j < mvs.len() && 0 <= k < mvs[j].len() && (#[trigger] mvs[j][k]).1 == target
}

/// Whether the king of `color` is attacked: some opposing piece has a
/// check-blind candidate landing on the king's square.  `false` when
/// check tests are switched off, and — permissively — when no king of
/// that color is on the board.
pub open spec fn spec_in_check(s: BoardState, color: Color) -> bool
    decreases flag_count(s), 30int, 0int,
{
    if s.ignore_check {
        false
    } else {
        let kings = spec_by_kind_and_color(s.board, Kind::King, color);
        if kings.len() == 0 {
            false
        } else {
            let king_sq = kings[0].0;
            let enemies = spec_by_color(s.board, other_color(color));
            exists|i: int|
                0 <= i < enemies.len() && spec_piece_attacks(
                    s,
                    (#[trigger] enemies[i]).0,
                    king_sq,
                )
        }
    }
}

/// Whether making the step `from -> to` leaves the king of the moving
/// piece's color in check.
pub open spec fn spec_check_for_check(s: BoardState, from: Square, to: Square) -> bool
    decreases flag_count(s), 40int, 0int,
{
    let c = at(s.board, from).unwrap().color;
    spec_in_check(spec_step(s, from, to), c)
}

/// Every sub-move from index `i` on departs, on the successively
/// stepped board, from an occupied in-bounds square holding a piece of
/// color `c`, toward an in-bounds square.
pub open spec fn own_steps_ok(s: BoardState, c: Color, m: Seq<Step>, i: int) -> bool
    decreases m.len() - i,
{
    i >= m.len() || {
        let from = m[i].0;
        let to = m[i].1;
        &&& sq_in_bounds(from)
        &&& sq_in_bounds(to)
        &&& at(s.board, from) is Some
        &&& at(s.board, from).unwrap().color == c
        &&& own_steps_ok(spec_step(s, from, to), c, m, i + 1)
    }
}

proof fn lemma_mseq_push(v: Seq<Vec<Step>>, m: Vec<Step>)
    ensures
        mseq(v.push(m)) == mseq(v).push(m@),
{
    assert(mseq(v.push(m)) =~= mseq(v).push(m@));
}

/// Every square a ray reaches lies on the board.
proof fn lemma_ray_in_bounds(b: Seq<Option<Piece>>, x: int, y: int, dx: int, dy: int)
    requires
        -1 <= dx <= 1,
        -1 <= dy <= 1,
        !(dx == 0 && dy == 0),
        0 <= x <= 7,
        0 <= y <= 7,
    ensures
        forall|j: int|
            0 <= j < spec_ray(b, x, y, dx, dy).len() ==> sq_in_bounds(
                #[trigger] spec_ray(b, x, y, dx, dy)[j],
            ),
    decreases ray_fuel(x, y, dx, dy),
{
    let r = spec_ray(b, x, y, dx, dy);
    if ray_can_advance(x, y, dx, dy) {
        lemma_ray_in_bounds(b, x + dx, y + dy, dx, dy);
        let sq = (((x + dx) as usize), ((y + dy) as usize));
        let rest = spec_ray(b, x + dx, y + dy, dx, dy);
        assert forall|j: int| 0 <= j < r.len() implies sq_in_bounds(#[trigger] r[j]) by {
            if at(b, sq) is Some {
                assert(r[j] == sq);
            } else if j == 0 {
                assert(r[j] == sq);
            } else {
                assert(r[j] == rest[j - 1]);
            }
        }
    }
}

/// Every entry of a rank-by-rank scan is an occupied in-bounds square
/// holding the piece paired with it, and that piece satisfies the
/// scan's test.
pub proof fn lemma_scan_ranks_items(b: Seq<Option<Piece>>, f: spec_fn(Piece) -> bool, n: int)
    requires
        0 <= n <= 64,
        b.len() == 64,
    ensures
        forall|j: int|
            0 <= j < scan_ranks(b, f, n).len() ==> {
                let it = #[trigger] scan_ranks(b, f, n)[j];
                sq_in_bounds(it.0) && at(b, it.0) == Some(it.1) && f(it.1)
            },
    decreases n,
{
    if n > 0 {
        lemma_scan_ranks_items(b, f, n - 1);
    }
}

/// As `lemma_scan_ranks_items`, for a file-by-file scan.
pub proof fn lemma_scan_files_items(b: Seq<Option<Piece>>, f: spec_fn(Piece) -> bool, n: int)
    requires
        0 <= n <= 64,
        b.len() == 64,
    ensures
        forall|j: int|
            0 <= j < scan_files(b, f, n).len() ==> {
                let it = #[trigger] scan_files(b, f, n)[j];
                sq_in_bounds(it.0) && at(b, it.0) == Some(it.1) && f(it.1)
            },
    decreases n,
{
    if n > 0 {
        lemma_scan_files_items(b, f, n - 1);
    }
}

/// A file-by-file scan finds an entry exactly when some cell among the
/// first `n` matches its test.
proof fn lemma_scan_files_nonempty(b: Seq<Option<Piece>>, f: spec_fn(Piece) -> bool, n: int)
    requires
        0 <= n <= 64,
        b.len() == 64,
    ensures
        scan_files(b, f, n).len() > 0 <==> exists|i: int|
            0 <= i < n && #[trigger] b[i] is Some && f(b[i].unwrap()),
    decreases n,
{
    if n > 0 {
        lemma_scan_files_nonempty(b, f, n - 1);
        let i = n - 1;
        let sq = (((i / 8) as usize), ((i % 8) as usize));
        assert((i / 8) * 8 + i % 8 == i) by (nonlinear_arith)
            requires 0 <= i < 64;
        assert(at(b, sq) == b[i]);
        if b[i] is Some && f(b[i].unwrap()) {
            assert(scan_files(b, f, n).len() > 0);
        }
    }
}

/// The board holds the king of color `c` exactly when the scan that
/// `by_kind_and_color` makes for it finds something.
pub proof fn lemma_has_king_scan(b: Seq<Option<Piece>>, c: Color)
    requires
        b.len() == 64,
    ensures
        spec_has_king(b, c) <==> spec_by_kind_and_color(b, Kind::King, c).len() > 0,
{
    let f = |p: Piece| p.kind == Kind::King && p.color == c;
    lemma_scan_files_nonempty(b, f, 64);
    assert forall|i: int| 0 <= i < 64 implies (b[i] == Some(
        Piece { color: c, kind: Kind::King },
    ) <==> (#[trigger] b[i] is Some && f(b[i].unwrap()))) by {}
}

/// A step made by a piece of color `c` that does not land on a piece
/// of color `c` keeps `c`'s king on the board.
proof fn lemma_king_preserved(s: BoardState, c: Color, from: Square, to: Square)
    requires
        s.board.len() == 64,
        spec_has_king(s.board, c),
        sq_in_bounds(from),
        sq_in_bounds(to),
        at(s.board, from) is Some,
        at(s.board, from).unwrap().color == c,
        !(at(s.board, to) is Some && at(s.board, to).unwrap().color == c),
    ensures
        spec_has_king(spec_step(s, from, to).board, c),
{
    let king = Piece { color: c, kind: Kind::King };
    let ki = choose|i: int| 0 <= i < 64 && s.board[i] == Some(king);
    let fi = from.0 as int * 8 + from.1 as int;
    let ti = to.0 as int * 8 + to.1 as int;
    let b2 = spec_step(s, from, to).board;
    if ki == fi {
        assert(at(s.board, from) == Some(king));
        assert(ti != fi);
        assert(promoted(king, to) == king);
        assert(b2[ti] == Some(king));
    } else {
        assert(ki != ti);
        assert(b2[ki] == Some(king));
    }
}

/// When the en-passant sequence on side `dx` exists, it moves the
/// scanned pawn's own color at every sub-move, within bounds.
proof fn lemma_ep_own(s: BoardState, pos: Square, c: Color, dx: int)
    requires
        s.board.len() == 64,
        sq_in_bounds(pos),
        at(s.board, pos) is Some,
        at(s.board, pos).unwrap().color == c,
        dx == -1 || dx == 1,
    ensures
        forall|k: int|
            0 <= k < spec_pawn_ep_side(s, pos, c, dx).len() ==> own_steps_ok(
                s,
                c,
                #[trigger] spec_pawn_ep_side(s, pos, c, dx)[k],
                0,
            ),
{
    if spec_pawn_side_ok(pos, c, dx) && spec_ep_cond(s, pos, c, dx) {
        let piece = at(s.board, pos).unwrap();
        let dir = pawn_dir(c);
        let adj = (((pos.0 + dx) as usize), pos.1);
        let behind = (((pos.0 + dx) as usize), ((pos.1 + dir) as usize));
        let m = seq![(pos, adj), (adj, behind)];
        assert(spec_pawn_ep_side(s, pos, c, dx)[0] == m);
        let s1 = spec_step(s, pos, adj);
        assert(at(s1.board, adj) == Some(promoted(piece, adj)));
        assert(promoted(piece, adj).color == c);
        let s2 = spec_step(s1, adj, behind);
        assert(own_steps_ok(s2, c, m, 2));
        assert(own_steps_ok(s1, c, m, 1));
        assert(own_steps_ok(s, c, m, 0));
    }
}

/// When a castling sequence exists, it moves the king and then the
/// rook of its own color, within bounds.
proof fn lemma_castle_own(s: BoardState, c: Color, kingside: bool)
    requires
        s.board.len() == 64,
    ensures
        forall|k: int|
            0 <= k < spec_castle_side(s, c, kingside).len() ==> own_steps_ok(
                s,
                c,
                #[trigger] spec_castle_side(s, c, kingside)[k],
                0,
            ),
{
    let y = if c == Color::White {
        0usize
    } else {
        7usize
    };
    let pos = (4usize, y);
    let side = spec_castle_side(s, c, kingside);
    if side.len() > 0 {
        let d: usize = if kingside {
            5
        } else {
            3
        };
        let e: usize = if kingside {
            6
        } else {
            2
        };
        let rk: usize = if kingside {
            7
        } else {
            0
        };
        let m = seq![(pos, (d, y)), ((d, y), (e, y)), ((rk, y), (d, y))];
        assert(side[0] == m);
        assert(at(s.board, pos) == Some(Piece { color: c, kind: Kind::King }));
        assert(at(s.board, (rk, y)) == Some(Piece { color: c, kind: Kind::Rook }));
        let king = Piece { color: c, kind: Kind::King };
        let s1 = spec_step(s, pos, (d, y));
        assert(at(s1.board, (d, y)) == Some(king));
        let s2 = spec_step(s1, (d, y), (e, y));
        assert(at(s2.board, (rk, y)) == Some(Piece { color: c, kind: Kind::Rook }));
        let s3 = spec_step(s2, (rk, y), (d, y));
        assert(own_steps_ok(s3, c, m, 3));
        assert(own_steps_ok(s2, c, m, 2));
        assert(own_steps_ok(s1, c, m, 1));
        assert(own_steps_ok(s, c, m, 0));
    }
}

/// One castling side, by name.
pub open spec fn spec_castle_side(s: BoardState, c: Color, kingside: bool) -> Seq<Seq<Step>>
    decreases flag_count(s), 1int, 0int,
{
    if kingside {
        spec_castle_right(s, c)
    } else {
        spec_castle_left(s, c)
    }
}

/// Castling reaches the candidate list: with the king at home,
/// whenever a side's castling conditions hold — the right intact, the
/// crossed square empty and not leaving the king in check, the landing
/// and remaining squares empty and the rook at home — the full
/// castling sequence stands among the raw candidates of the king's
/// square.
pub proof fn lemma_castle_candidate(s: BoardState, c: Color, kingside: bool)
    requires
        s.board.len() == 64,
        at(
            s.board,
            (4usize, (if c == Color::White {
                0usize
            } else {
                7usize
            })),
        ) == Some(Piece { color: c, kind: Kind::King }),
        spec_castle_side(s, c, kingside).len() > 0,
    ensures
        spec_raw_moves(
            s,
            (4usize, (if c == Color::White {
                0usize
            } else {
                7usize
            })),
        ).contains(spec_castle_side(s, c, kingside)[0]),
{
    let y: usize = if c == Color::White {
        0
    } else {
        7
    };
    let pos = (4usize, y);
    lemma_raw_split(s, pos);
    let specials = spec_specials_of(s, pos);
    let raw = spec_raw_moves(s, pos);
    let k: int = if kingside {
        spec_castle_side(s, c, false).len() as int
    } else {
        0
    };
    assert(specials[k] == spec_castle_side(s, c, kingside)[0]);
    assert(raw[k] == spec_castle_side(s, c, kingside)[0]);
}

/// En passant reaches the candidate list: when the adjacent file at
/// `dx` holds an opposing pawn, the capturing pawn stands on its
/// en-passant rank, and the immediately preceding step was that pawn
/// double-stepping in, the two-step capturing sequence stands among
/// the raw candidates of the pawn's square.
pub proof fn lemma_ep_candidate(s: BoardState, pos: Square, c: Color, dx: int)
    requires
        s.board.len() == 64,
        sq_in_bounds(pos),
        at(s.board, pos) == Some(Piece { color: c, kind: Kind::Pawn }),
        dx == -1 || dx == 1,
        spec_pawn_side_ok(pos, c, dx),
        spec_ep_cond(s, pos, c, dx),
    ensures
        spec_raw_moves(s, pos).contains(spec_pawn_ep_side(s, pos, c, dx)[0]),
{
    lemma_raw_split(s, pos);
    let specials = spec_specials_of(s, pos);
    let raw = spec_raw_moves(s, pos);
    let k: int = if dx == -1 {
        0
    } else {
        spec_pawn_ep_side(s, pos, c, -1).len() as int
    };
    assert(specials[k] == spec_pawn_ep_side(s, pos, c, dx)[0]);
    assert(raw[k] == spec_pawn_ep_side(s, pos, c, dx)[0]);
}

/// Every square among a pawn's single-square targets lies on the
/// board.
#[verifier::rlimit(100)]
proof fn lemma_pawn_singles_bounds(s: BoardState, pos: Square, c: Color)
    requires
        sq_in_bounds(pos),
    ensures
        forall|j: int|
            0 <= j < spec_pawn_singles(s, pos, c).len() ==> sq_in_bounds(
                #[trigger] spec_pawn_singles(s, pos, c)[j],
            ),
{
}

/// Every square among a knight's targets lies on the board.
#[verifier::rlimit(100)]
proof fn lemma_knight_singles_bounds(pos: Square)
    requires
        sq_in_bounds(pos),
    ensures
        forall|j: int|
            0 <= j < spec_knight_singles(pos).len() ==> sq_in_bounds(
                #[trigger] spec_knight_singles(pos)[j],
            ),
{
}

/// Every square among a king's single-square targets lies on the
/// board.
#[verifier::rlimit(100)]
proof fn lemma_king_singles_bounds(pos: Square)
    requires
        sq_in_bounds(pos),
    ensures
        forall|j: int|
            0 <= j < spec_king_singles(pos).len() ==> sq_in_bounds(
                #[trigger] spec_king_singles(pos)[j],
            ),
{
}

/// Every square that the single-square generation of the piece at
/// `pos` yields lies on the board.
proof fn lemma_singles_in_bounds(s: BoardState, pos: Square)
    requires
        s.board.len() == 64,
        sq_in_bounds(pos),
        at(s.board, pos) is Some,
    ensures
        forall|j: int|
            0 <= j < spec_singles_of(s, pos).len() ==> sq_in_bounds(
                #[trigger] spec_singles_of(s, pos)[j],
            ),
{
    let piece = at(s.board, pos).unwrap();
    let px = pos.0 as int;
    let py = pos.1 as int;
    match piece.kind {
        Kind::Rook | Kind::Bishop | Kind::Queen => {
            lemma_ray_in_bounds(s.board, px, py, 1, 0);
            lemma_ray_in_bounds(s.board, px, py, -1, 0);
            lemma_ray_in_bounds(s.board, px, py, 0, 1);
            lemma_ray_in_bounds(s.board, px, py, 0, -1);
            lemma_ray_in_bounds(s.board, px, py, 1, 1);
            lemma_ray_in_bounds(s.board, px, py, 1, -1);
            lemma_ray_in_bounds(s.board, px, py, -1, 1);
            lemma_ray_in_bounds(s.board, px, py, -1, -1);
        },
        Kind::Pawn => {
            lemma_pawn_singles_bounds(s, pos, piece.color);
        },
        Kind::Knight => {
            lemma_knight_singles_bounds(pos);
        },
        Kind::King => {
            lemma_king_singles_bounds(pos);
        },
    }
}

/// The single-square targets of the piece at `pos`, by name.
pub open spec fn spec_singles_of(s: BoardState, pos: Square) -> Seq<Square> {
    match at(s.board, pos) {
        None => Seq::empty(),
        Some(piece) => match piece.kind {
            Kind::Pawn => spec_pawn_singles(s, pos, piece.color),
            Kind::Rook => spec_rook_singles(s.board, pos),
            Kind::Bishop => spec_bishop_singles(s.board, pos),
            Kind::Queen => spec_queen_singles(s.board, pos),
            Kind::Knight => spec_knight_singles(pos),
            Kind::King => spec_king_singles(pos),
        },
    }
}

/// The special multi-step sequences of the piece at `pos`, by name.
pub open spec fn spec_specials_of(s: BoardState, pos: Square) -> Seq<Seq<Step>>
    decreases flag_count(s), 2int, 0int,
{
    match at(s.board, pos) {
        None => Seq::empty(),
        Some(piece) => match piece.kind {
            Kind::Pawn => spec_pawn_ep_side(s, pos, piece.color, -1) + spec_pawn_ep_side(
                s,
                pos,
                piece.color,
                1,
            ),
            Kind::King => {
                let y = if piece.color == Color::White {
                    0usize
                } else {
                    7usize
                };
                if pos == (4usize, y) {
                    spec_castle_side(s, piece.color, false) + spec_castle_side(
                        s,
                        piece.color,
                        true,
                    )
                } else {
                    Seq::empty()
                }
            },
            _ => Seq::empty(),
        },
    }
}

/// Raw generation is the special sequences followed by the wrapped
/// single-square targets.
proof fn lemma_raw_split(s: BoardState, pos: Square)
    requires
        sq_in_bounds(pos),
    ensures
        spec_raw_moves(s, pos) == spec_specials_of(s, pos) + spec_singles_of(s, pos).map_values(
            |v: Square| seq![(pos, v)],
        ),
{
    assert(spec_raw_moves(s, pos) =~= spec_specials_of(s, pos) + spec_singles_of(
        s,
        pos,
    ).map_values(|v: Square| seq![(pos, v)]));
}

/// Every candidate of `spec_raw_moves` moves pieces of the scanned
/// piece's own color, square by square, within bounds.
proof fn lemma_raw_own_steps(s: BoardState, pos: Square)
    requires
        s.board.len() == 64,
        sq_in_bounds(pos),
        at(s.board, pos) is Some,
    ensures
        forall|k: int|
            0 <= k < spec_raw_moves(s, pos).len() ==> own_steps_ok(
                s,
                at(s.board, pos).unwrap().color,
                #[trigger] spec_raw_moves(s, pos)[k],
                0,
            ),
{
    let piece = at(s.board, pos).unwrap();
    let c = piece.color;
    let raw = spec_raw_moves(s, pos);
    let specials = spec_specials_of(s, pos);
    let singles = spec_singles_of(s, pos);
    lemma_raw_split(s, pos);
    lemma_singles_in_bounds(s, pos);
    lemma_ep_own(s, pos, c, -1);
    lemma_ep_own(s, pos, c, 1);
    lemma_castle_own(s, c, false);
    lemma_castle_own(s, c, true);
    assert forall|k: int| 0 <= k < raw.len() implies own_steps_ok(s, c, #[trigger] raw[k], 0) by {
        if k < specials.len() {
            if piece.kind == Kind::Pawn {
                let left = spec_pawn_ep_side(s, pos, c, -1);
                if k < left.len() {
                    assert(raw[k] == left[k]);
                } else {
                    assert(raw[k] == spec_pawn_ep_side(s, pos, c, 1)[k - left.len()]);
                }
            } else {
                let left = spec_castle_side(s, c, false);
                if k < left.len() {
                    assert(raw[k] == left[k]);
                } else {
                    assert(raw[k] == spec_castle_side(s, c, true)[k - left.len()]);
                }
            }
        } else {
            let v = singles[k - specials.len()];
            let m = raw[k];
            assert(m == seq![(pos, v)]);
            assert(sq_in_bounds(v));
            assert(own_steps_ok(spec_step(s, pos, v), c, m, 1));
            assert(own_steps_ok(s, c, m, 0));
        }
    }
}

/// The board state after applying the sub-moves of `m` from index `i`
/// on.
pub open spec fn spec_steps_applied(s: BoardState, m: Seq<Step>, i: int) -> BoardState
    decreases m.len() - i,
{
    if i < 0 || i >= m.len() {
        s
    } else {
        spec_steps_applied(spec_step(s, m[i].0, m[i].1), m, i + 1)
    }
}

/// Every member of the filtered candidate list is a member of the
/// unfiltered one and passes the filter's test.
proof fn lemma_filtered_subset(s: BoardState, v: Seq<Seq<Step>>, tc: bool)
    ensures
        forall|i: int|
            0 <= i < spec_filtered(s, v, tc).len() ==> v.contains(
                #[trigger] spec_filtered(s, v, tc)[i],
            ) && spec_seq_ok(s, spec_filtered(s, v, tc)[i], tc, 0),
    decreases v.len(),
{
    reveal(Seq::filter);
    if v.len() > 0 {
        let d = v.drop_last();
        lemma_filtered_subset(s, d, tc);
        let f = spec_filtered(s, v, tc);
        let fd = spec_filtered(s, d, tc);
        assert forall|i: int| 0 <= i < f.len() implies v.contains(#[trigger] f[i]) && spec_seq_ok(
            s,
            f[i],
            tc,
            0,
        ) by {
            if i < fd.len() {
                assert(f[i] == fd[i]);
                assert(d.contains(fd[i]));
                let j = choose|j: int| 0 <= j < d.len() && d[j] == fd[i];
                assert(v[j] == f[i]);
            } else {
                assert(f[i] == v.last());
                assert(v[v.len() - 1] == v.last());
            }
        }
    }
}

/// A candidate that the legality filter's test accepts is kept by the
/// filter.
proof fn lemma_filtered_contains(s: BoardState, v: Seq<Seq<Step>>, tc: bool, k: int)
    requires
        0 <= k < v.len(),
        spec_seq_ok(s, v[k], tc, 0),
    ensures
        spec_filtered(s, v, tc).contains(v[k]),
    decreases v.len(),
{
    reveal(Seq::filter);
    let f = spec_filtered(s, v, tc);
    if k == v.len() - 1 {
        assert(v.last() == v[k]);
        assert(f[f.len() - 1] == v[k]);
    } else {
        let d = v.drop_last();
        lemma_filtered_contains(s, d, tc, k);
        let fd = spec_filtered(s, d, tc);
        assert(d[k] == v[k]);
        let j = choose|j: int| 0 <= j < fd.len() && fd[j] == v[k];
        assert(f[j] == v[k]);
    }
}

/// The castling sequence of a side: the king crossing two squares,
/// then the rook relocating beside it.
pub open spec fn spec_castle_seq(c: Color, kingside: bool) -> Seq<Step> {
    let y: usize = if c == Color::White {
        0
    } else {
        7
    };
    let d: usize = if kingside {
        5
    } else {
        3
    };
    let e: usize = if kingside {
        6
    } else {
        2
    };
    let rk: usize = if kingside {
        7
    } else {
        0
    };
    seq![((4usize, y), (d, y)), ((d, y), (e, y)), ((rk, y), (d, y))]
}

/// Castling among the legal moves, both ways: with the king at home,
/// a side's castling sequence is among the legal moves of the king's
/// square exactly when that side's generation conditions hold and the
/// legality filter's simulation accepts the sequence (the king safe
/// after each of its steps and after the rook's).
pub proof fn lemma_castle_legal(s: BoardState, c: Color, kingside: bool)
    requires
        s.board.len() == 64,
        at(
            s.board,
            (4usize, (if c == Color::White {
                0usize
            } else {
                7usize
            })),
        ) == Some(Piece { color: c, kind: Kind::King }),
    ensures
        spec_valid_moves(
            s,
            (4usize, (if c == Color::White {
                0usize
            } else {
                7usize
            })),
        ).contains(spec_castle_seq(c, kingside)) <==> (spec_castle_side(s, c, kingside).len() > 0
            && spec_seq_ok(s, spec_castle_seq(c, kingside), true, 0)),
{
    let y: usize = if c == Color::White {
        0
    } else {
        7
    };
    let pos = (4usize, y);
    let cs = spec_castle_seq(c, kingside);
    let raw = spec_raw_moves(s, pos);
    assert(spec_valid_moves(s, pos) == spec_filtered(s, raw, true));
    lemma_raw_split(s, pos);
    let specials = spec_specials_of(s, pos);
    let singles = spec_singles_of(s, pos);
    let left = spec_castle_side(s, c, false);
    let right = spec_castle_side(s, c, true);
    assert(specials == left + right);

    if spec_castle_side(s, c, kingside).len() > 0 && spec_seq_ok(s, cs, true, 0) {
        assert(spec_castle_side(s, c, kingside)[0] == cs);
        lemma_castle_candidate(s, c, kingside);
        let k = choose|k: int| 0 <= k < raw.len() && raw[k] == cs;
        lemma_filtered_contains(s, raw, true, k);
    }
    if spec_valid_moves(s, pos).contains(cs) {
        lemma_filtered_subset(s, raw, true);
        let i = choose|i: int|
            0 <= i < spec_filtered(s, raw, true).len() && spec_filtered(s, raw, true)[i] == cs;
        assert(raw.contains(cs) && spec_seq_ok(s, cs, true, 0));
        let j = choose|j: int| 0 <= j < raw.len() && raw[j] == cs;
        if j >= specials.len() {
            assert(raw[j] == seq![(pos, singles[j - specials.len()])]);
            assert(raw[j].len() == 1 && cs.len() == 3);
        }
        assert(j < specials.len());
        if j < left.len() {
            assert(raw[j] == left[0]);
            assert(left[0] == spec_castle_seq(c, false));
            if kingside {
                assert(spec_castle_seq(c, false)[0].1 != cs[0].1);
            }
            assert(!kingside && left.len() > 0);
        } else {
            assert(raw[j] == right[0]);
            assert(right[0] == spec_castle_seq(c, true));
            if !kingside {
                assert(spec_castle_seq(c, true)[0].1 != cs[0].1);
            }
            assert(kingside && right.len() > 0);
        }
    }
}

/// En passant among the legal moves: under the en-passant condition,
/// and provided the legality filter's simulation accepts the capture
/// (in particular the capturing pawn is not pinned), the two-step
/// sequence is among the legal moves of the pawn's square.
pub proof fn lemma_ep_legal(s: BoardState, pos: Square, c: Color, dx: int)
    requires
        s.board.len() == 64,
        sq_in_bounds(pos),
        at(s.board, pos) == Some(Piece { color: c, kind: Kind::Pawn }),
        dx == -1 || dx == 1,
        spec_pawn_side_ok(pos, c, dx),
        spec_ep_cond(s, pos, c, dx),
        spec_seq_ok(s, spec_pawn_ep_side(s, pos, c, dx)[0], true, 0),
    ensures
        spec_valid_moves(s, pos).contains(spec_pawn_ep_side(s, pos, c, dx)[0]),
{
    lemma_ep_candidate(s, pos, c, dx);
    let raw = spec_raw_moves(s, pos);
    let m = spec_pawn_ep_side(s, pos, c, dx)[0];
    let k = choose|k: int| 0 <= k < raw.len() && raw[k] == m;
    lemma_filtered_contains(s, raw, true, k);
    assert(spec_valid_moves(s, pos) == spec_filtered(s, raw, true));
}

/// When a candidate that moves only color `c` passes the legality
/// filter with the check test on, the board it leaves behind does not
/// have `c` in check.
proof fn lemma_safe_end(s: BoardState, c: Color, m: Seq<Step>, i: int)
    requires
        0 <= i < m.len(),
        own_steps_ok(s, c, m, i),
        spec_seq_ok(s, m, true, i),
    ensures
        !spec_in_check(spec_steps_applied(s, m, i), c),
    decreases m.len() - i,
{
    let s2 = spec_step(s, m[i].0, m[i].1);
    assert(at(s.board, m[i].0).unwrap().color == c);
    assert(!spec_check_for_check(s, m[i].0, m[i].1));
    assert(!spec_in_check(s2, c));
    assert(spec_steps_applied(s, m, i) == spec_steps_applied(s2, m, i + 1));
    if i + 1 < m.len() {
        lemma_safe_end(s2, c, m, i + 1);
    } else {
        assert(spec_steps_applied(s2, m, i + 1) == s2);
    }
}

/// The shape of each raw candidate at its end: a single step, an
/// en-passant pair whose final square differs from both squares of the
/// capture step, or a castling triple whose final square was empty to
/// begin with.
proof fn lemma_raw_end_shapes(s: BoardState, pos: Square)
    requires
        s.board.len() == 64,
        sq_in_bounds(pos),
        at(s.board, pos) is Some,
    ensures
        forall|k: int|
            0 <= k < spec_raw_moves(s, pos).len() ==> {
                let m = #[trigger] spec_raw_moves(s, pos)[k];
                ||| m.len() == 1
                ||| (m.len() == 2 && m[1].1 != m[0].0 && m[1].1 != m[0].1)
                ||| (m.len() == 3 && at(s.board, m[2].1) is None)
            },
{
    let piece = at(s.board, pos).unwrap();
    let c = piece.color;
    let raw = spec_raw_moves(s, pos);
    let specials = spec_specials_of(s, pos);
    let singles = spec_singles_of(s, pos);
    lemma_raw_split(s, pos);
    assert forall|k: int| 0 <= k < raw.len() implies {
        let m = #[trigger] raw[k];
        ||| m.len() == 1
        ||| (m.len() == 2 && m[1].1 != m[0].0 && m[1].1 != m[0].1)
        ||| (m.len() == 3 && at(s.board, m[2].1) is None)
    } by {
        if k < specials.len() {
            if piece.kind == Kind::Pawn {
                let left = spec_pawn_ep_side(s, pos, c, -1);
                if k < left.len() {
                    assert(raw[k] == left[k]);
                } else {
                    assert(raw[k] == spec_pawn_ep_side(s, pos, c, 1)[k - left.len()]);
                }
            } else {
                let left = spec_castle_side(s, c, false);
                if k < left.len() {
                    assert(raw[k] == left[k]);
                } else {
                    assert(raw[k] == spec_castle_side(s, c, true)[k - left.len()]);
                }
            }
        } else {
            assert(raw[k] == seq![(pos, singles[k - specials.len()])]);
        }
    }
}

/// Every legal move sequence is sound: it is non-empty, applying it
/// leaves the moving piece's own color not in check, and its final
/// destination holds no piece of that color on the starting board.
pub proof fn lemma_valid_moves_safe(g: GameView, pos: Square, k: int)
    requires
        g.wf(),
        sq_in_bounds(pos),
        at(g.board, pos) is Some,
        0 <= k < spec_valid_moves(g.bstate(), pos).len(),
    ensures
        ({
            let m = spec_valid_moves(g.bstate(), pos)[k];
            let c = at(g.board, pos).unwrap().color;
            &&& m.len() >= 1
            &&& !spec_in_check(spec_steps_applied(g.bstate(), m, 0), c)
            &&& (at(g.board, m[m.len() - 1].1) is Some ==> at(
                g.board,
                m[m.len() - 1].1,
            ).unwrap().color != c)
        }),
{
    let s = g.bstate();
    let raw = spec_raw_moves(s, pos);
    let m = spec_valid_moves(s, pos)[k];
    let c = at(g.board, pos).unwrap().color;
    lemma_filtered_subset(s, raw, true);
    assert(spec_valid_moves(s, pos) == spec_filtered(s, raw, true));
    assert(m == spec_filtered(s, raw, true)[k]);
    assert(raw.contains(m) && spec_seq_ok(s, m, true, 0));
    let j = choose|j: int| 0 <= j < raw.len() && raw[j] == m;
    lemma_raw_own_steps(s, pos);
    lemma_raw_end_shapes(s, pos);
    assert(own_steps_ok(s, c, m, 0));
    assert(m.len() >= 1);
    lemma_safe_end(s, c, m, 0);
    if m.len() == 1 {
        assert(at(s.board, m[0].1) is Some ==> at(s.board, m[0].1).unwrap().color != c);
    } else if m.len() == 2 {
        let s1 = spec_step(s, m[0].0, m[0].1);
        let t = m[1].1;
        assert(at(s1.board, t) is Some ==> at(s1.board, t).unwrap().color != c);
        assert(at(s1.board, t) == at(s.board, t));
    }
}

/// A copy of a step list.
pub(crate) fn copy_steps(v: &Vec<Step>) -> (r: Vec<Step>)
    ensures
        r@ == v@,
{
    let mut r: Vec<Step> = Vec::new();
    let mut i: usize = 0;
    while i < v.len()
        invariant
            i <= v@.len(),
            r@ == v@.subrange(0, i as int),
        decreases v@.len() - i,
    {
        r.push(v[i]);
        i += 1;
    }
    proof {
        assert(r@ =~= v@);
    }
    r
}

/// The squares a slider reaches along one direction, stopping at the
/// first occupied square or the board edge.
fn ray_moves(g: &Game, x: usize, y: usize, dx: i32, dy: i32) -> (r: Vec<Square>)
    requires
        g@.wf(),
        x <= 7,
        y <= 7,
        -1 <= dx <= 1,
        -1 <= dy <= 1,
        !(dx == 0 && dy == 0),
    ensures
        r@ == spec_ray(g@.board, x as int, y as int, dx as int, dy as int),
    decreases ray_fuel(x as int, y as int, dx as int, dy as int),
{
    let can = (dx <= 0 || x < 7) && (dx >= 0 || x > 0) && (dy <= 0 || y < 7) && (dy >= 0 || y
        > 0);
    if !can {
        let r: Vec<Square> = Vec::new();
        proof {
            assert(!ray_can_advance(x as int, y as int, dx as int, dy as int));
            assert(r@ =~= spec_ray(g@.board, x as int, y as int, dx as int, dy as int));
        }
        return r;
    }
    let nx = if dx > 0 {
        x + 1
    } else if dx < 0 {
        x - 1
    } else {
        x
    };
    let ny = if dy > 0 {
        y + 1
    } else if dy < 0 {
        y - 1
    } else {
        y
    };
    let mut r: Vec<Square> = Vec::new();
    r.push((nx, ny));
    if g.get_from_pos((nx, ny)).is_some() {
        proof {
            assert(r@ =~= spec_ray(g@.board, x as int, y as int, dx as int, dy as int));
        }
        r
    } else {
        let mut rest = ray_moves(g, nx, ny, dx, dy);
        r.append(&mut rest);
        proof {
            assert(r@ =~= spec_ray(g@.board, x as int, y as int, dx as int, dy as int));
        }
        r
    }
}

/// Pushes the in-bounds knight targets of `pos`, in generation
/// order.
#[verifier::rlimit(100)]
fn knight_targets(pos: Square, moves: &mut Vec<Square>)
    requires
        sq_in_bounds(pos),
    ensures
        final(moves)@ == old(moves)@ + spec_knight_singles(pos),
{
    if pos.0 >= 1 {
        if pos.1 >= 2 {
            moves.push((pos.0 - 1, pos.1 - 2));
        }
        if pos.1 <= 5 {
            moves.push((pos.0 - 1, pos.1 + 2));
        }
    }
    if pos.0 <= 6 {
        if pos.1 >= 2 {
            moves.push((pos.0 + 1, pos.1 - 2));
        }
        if pos.1 <= 5 {
            moves.push((pos.0 + 1, pos.1 + 2));
        }
    }
    if pos.0 >= 2 {
        if pos.1 >= 1 {
            moves.push((pos.0 - 2, pos.1 - 1));
        }
        if pos.1 <= 6 {
            moves.push((pos.0 - 2, pos.1 + 1));
        }
    }
    if pos.0 <= 5 {
        if pos.1 >= 1 {
            moves.push((pos.0 + 2, pos.1 - 1));
        }
        if pos.1 <= 6 {
            moves.push((pos.0 + 2, pos.1 + 1));
        }
    }
    proof {
        assert(moves@ =~= old(moves)@ + spec_knight_singles(pos));
    }
}

/// Pushes the in-bounds single-square king targets of `pos`, in
/// generation order.
#[verifier::rlimit(100)]
fn king_targets(pos: Square, moves: &mut Vec<Square>)
    requires
        sq_in_bounds(pos),
    ensures
        final(moves)@ == old(moves)@ + spec_king_singles(pos),
{
    if pos.0 > 0 {
        moves.push((pos.0 - 1, pos.1));
        if pos.1 > 0 {
            moves.push((pos.0 - 1, pos.1 - 1));
        }
        if pos.1 < 7 {
            moves.push((pos.0 - 1, pos.1 + 1));
        }
    }
    if pos.0 < 7 {
        moves.push((pos.0 + 1, pos.1));
        if pos.1 > 0 {
            moves.push((pos.0 + 1, pos.1 - 1));
        }
        if pos.1 < 7 {
            moves.push((pos.0 + 1, pos.1 + 1));
        }
    }
    if pos.1 > 0 {
        moves.push((pos.0, pos.1 - 1));
    }
    if pos.1 < 7 {
        moves.push((pos.0, pos.1 + 1));
    }
    proof {
        assert(moves@ =~= old(moves)@ + spec_king_singles(pos));
    }
}

impl Game {
    /// Adds the en-passant sequence and the diagonal capture of one
    /// side of a pawn of color `c` at `pos`.
    fn pawn_side(
        &self,
        pos: Square,
        c: Color,
        dxp: bool,
        moves: &mut Vec<Square>,
        result: &mut Vec<Vec<Step>>,
    )
        requires
            self@.wf(),
            sq_in_bounds(pos),
        ensures
            final(moves)@ == old(moves)@ + spec_pawn_diag(self@.bstate(), pos, c, if dxp {
                1int
            } else {
                -1int
            }),
            mseq(final(result)@) == mseq(old(result)@) + spec_pawn_ep_side(
                self@.bstate(),
                pos,
                c,
                if dxp {
                    1int
                } else {
                    -1int
                },
            ),
    {
        let ghost s = self@.bstate();
        let ghost dx: int = if dxp {
            1
        } else {
            -1
        };
        let dir_up = c == Color::White;
        let ep_rank: usize = if dir_up {
            4
        } else {
            3
        };
        let side_ok = (if dxp {
            pos.0 < 7
        } else {
            pos.0 > 0
        }) && (if dir_up {
            pos.1 < 7
        } else {
            pos.1 > 0
        });
        if side_ok {
            let ax = if dxp {
                pos.0 + 1
            } else {
                pos.0 - 1
            };
            let by = if dir_up {
                pos.1 + 1
            } else {
                pos.1 - 1
            };
            let lst = self.last_step();
            let mut passant = false;
            if let Some(other) = self.get_from_pos((ax, pos.1)) {
                if other.color != c && other.kind == Kind::Pawn && pos.1 == ep_rank
                    && lst.0.0 == ax && lst.0.1 == (if dir_up {
                    pos.1 + 2
                } else {
                    pos.1 - 2
                }) && lst.1.0 == ax && lst.1.1 == pos.1 {
                    passant = true;
                    let mut cc: Vec<Step> = Vec::new();
                    cc.push((pos, (ax, pos.1)));
                    cc.push(((ax, pos.1), (ax, by)));
                    proof {
                        lemma_mseq_push(result@, cc);
                    }
                    result.push(cc);
                }
            }
            if self.get_from_pos((ax, by)).is_some() {
                if !passant {
                    moves.push((ax, by));
                }
            }
            proof {
                assert(spec_pawn_side_ok(pos, c, dx));
                assert(mseq(result@) =~~= mseq(old(result)@) + spec_pawn_ep_side(s, pos, c, dx));
                assert(moves@ =~= old(moves)@ + spec_pawn_diag(s, pos, c, dx));
            }
        } else {
            proof {
                assert(!spec_pawn_side_ok(pos, c, dx));
                assert(mseq(result@) =~~= mseq(old(result)@) + spec_pawn_ep_side(s, pos, c, dx));
                assert(moves@ =~= old(moves)@ + spec_pawn_diag(s, pos, c, dx));
            }
        }
    }

    /// Pushes the pawn's forward targets: the double step from the
    /// starting rank and the single step, both onto empty squares.
    #[verifier::rlimit(100)]
    fn pawn_front(&self, pos: Square, c: Color, moves: &mut Vec<Square>)
        requires
            self@.wf(),
            sq_in_bounds(pos),
        ensures
            final(moves)@ == old(moves)@ + spec_pawn_front(self@.bstate(), pos, c),
    {
        let ghost s = self@.bstate();
        let dir_up = c == Color::White;
        if (if dir_up {
            pos.1 == 1
        } else {
            pos.1 == 6
        }) {
            let f1y = if dir_up {
                pos.1 + 1
            } else {
                pos.1 - 1
            };
            let f2y = if dir_up {
                pos.1 + 2
            } else {
                pos.1 - 2
            };
            if self.get_from_pos((pos.0, f1y)).is_none() {
                if self.get_from_pos((pos.0, f2y)).is_none() {
                    moves.push((pos.0, f2y));
                }
            }
        }
        if (if dir_up {
            pos.1 < 7
        } else {
            pos.1 > 0
        }) {
            let f1y = if dir_up {
                pos.1 + 1
            } else {
                pos.1 - 1
            };
            if self.get_from_pos((pos.0, f1y)).is_none() {
                moves.push((pos.0, f1y));
            }
        }
        proof {
            assert(moves@ =~= old(moves)@ + spec_pawn_front(s, pos, c));
        }
    }

    /// Adds the castling sequence of one side for the king of color
    /// `c` on its original square, when every condition holds.
    fn castle_side(&self, c: Color, kingside: bool, result: &mut Vec<Vec<Step>>)
        requires
            self@.wf(),
            at(
                self@.board,
                (4usize, (if c == Color::White {
                    0usize
                } else {
                    7usize
                })),
            ) == Some(Piece { color: c, kind: Kind::King }),
        ensures
            mseq(final(result)@) == mseq(old(result)@) + spec_castle_side(
                self@.bstate(),
                c,
                kingside,
            ),
        decreases flag_count(self@.bstate()), 3int, 0int,
    {
        let ghost s = self@.bstate();
        let y: usize = if c == Color::White {
            0
        } else {
            7
        };
        let pos = (4usize, y);
        let d: usize = if kingside {
            5
        } else {
            3
        };
        let e: usize = if kingside {
            6
        } else {
            2
        };
        let chk: usize = if kingside {
            6
        } else {
            1
        };
        let rk: usize = if kingside {
            7
        } else {
            0
        };
        let flag = self.castle_flag(c, kingside);
        if flag {
            if self.get_from_pos((d, y)).is_none() {
                let mut probe = self.probe_clone();
                probe.apply_step(pos, (d, y));
                proof {
                    assert(promoted(Piece { color: c, kind: Kind::King }, (d, y)) == Piece {
                        color: c,
                        kind: Kind::King,
                    });
                    assert(probe@.board[d as int * 8 + y as int] == Some(Piece {
                        color: c,
                        kind: Kind::King,
                    }));
                    assert(spec_has_king(probe@.board, c));
                    assert(flag_count(probe@.bstate()) < flag_count(s));
                }
                if !probe.in_check(c) {
                    if self.get_from_pos((e, y)).is_none() {
                        if self.get_from_pos((chk, y)).is_none() {
                            if let Some(rook) = self.get_from_pos((rk, y)) {
                                if rook.color == c && rook.kind == Kind::Rook {
                                    let mut cc: Vec<Step> = Vec::new();
                                    cc.push((pos, (d, y)));
                                    cc.push(((d, y), (e, y)));
                                    cc.push(((rk, y), (d, y)));
                                    proof {
                                        lemma_mseq_push(result@, cc);
                                    }
                                    result.push(cc);
                                }
                            }
                        }
                    }
                }
            }
        }
        proof {
            assert(mseq(result@) =~~= mseq(old(result)@) + spec_castle_side(s, c, kingside));
        }
    }

    /// The pseudo-legal candidate sequences for the piece at `pos`,
    /// not yet filtered for self-check: en-passant and castling
    /// sequences first, then every single-square target as a one-step
    /// sequence.
    #[verifier::loop_isolation(false)]
    #[verifier::rlimit(100)]
    pub(crate) fn raw_moves(&self, pos: Square) -> (r: Vec<Vec<Step>>)
        requires
            self@.wf(),
            sq_in_bounds(pos),
        ensures
            mseq(r@) == spec_raw_moves(self@.bstate(), pos),
        decreases flag_count(self@.bstate()), 5int, 0int,
    {
        let ghost s = self@.bstate();
        let mut result: Vec<Vec<Step>> = Vec::new();
        let mut moves: Vec<Square> = Vec::new();

        let piece = match self.get_from_pos(pos) {
            None => {
                proof {
                    assert(mseq(result@) =~= spec_raw_moves(s, pos));
                }
                return result;
            },
            Some(piece) => piece,
        };

        match piece.kind {
            Kind::Pawn => {
                self.pawn_front(pos, piece.color, &mut moves);
                self.pawn_side(pos, piece.color, false, &mut moves, &mut result);
                self.pawn_side(pos, piece.color, true, &mut moves, &mut result);
                proof {
                    assert(moves@ =~= spec_pawn_singles(s, pos, piece.color));
                    assert(mseq(result@) =~= spec_specials_of(s, pos));
                }
            },
            Kind::Rook => {
                let mut a = ray_moves(self, pos.0, pos.1, 1, 0);
                moves.append(&mut a);
                let mut a = ray_moves(self, pos.0, pos.1, -1, 0);
                moves.append(&mut a);
                let mut a = ray_moves(self, pos.0, pos.1, 0, 1);
                moves.append(&mut a);
                let mut a = ray_moves(self, pos.0, pos.1, 0, -1);
                moves.append(&mut a);
                proof {
                    assert(moves@ =~= spec_rook_singles(s.board, pos));
                }
            },
            Kind::Bishop => {
                let mut a = ray_moves(self, pos.0, pos.1, 1, 1);
                moves.append(&mut a);
                let mut a = ray_moves(self, pos.0, pos.1, 1, -1);
                moves.append(&mut a);
                let mut a = ray_moves(self, pos.0, pos.1, -1, 1);
                moves.append(&mut a);
                let mut a = ray_moves(self, pos.0, pos.1, -1, -1);
                moves.append(&mut a);
                proof {
                    assert(moves@ =~= spec_bishop_singles(s.board, pos));
                }
            },
            Kind::Queen => {
                let mut a = ray_moves(self, pos.0, pos.1, 1, 1);
                moves.append(&mut a);
                let mut a = ray_moves(self, pos.0, pos.1, 1, -1);
                moves.append(&mut a);
                let mut a = ray_moves(self, pos.0, pos.1, -1, 1);
                moves.append(&mut a);
                let mut a = ray_moves(self, pos.0, pos.1, -1, -1);
                moves.append(&mut a);
                let mut a = ray_moves(self, pos.0, pos.1, 1, 0);
                moves.append(&mut a);
                let mut a = ray_moves(self, pos.0, pos.1, -1, 0);
                moves.append(&mut a);
                let mut a = ray_moves(self, pos.0, pos.1, 0, 1);
                moves.append(&mut a);
                let mut a = ray_moves(self, pos.0, pos.1, 0, -1);
                moves.append(&mut a);
                proof {
                    assert(moves@ =~= spec_queen_singles(s.board, pos));
                }
            },
            Kind::Knight => {
                knight_targets(pos, &mut moves);
            },
            Kind::King => {
                king_targets(pos, &mut moves);

                let y: usize = if piece.color == Color::White {
                    0
                } else {
                    7
                };
                if pos.0 == 4 && pos.1 == y {
                    proof {
                        assert(piece == Piece { color: piece.color, kind: Kind::King });
                    }
                    self.castle_side(piece.color, false, &mut result);
                    self.castle_side(piece.color, true, &mut result);
                }
                proof {
                    assert(mseq(result@) =~= spec_specials_of(s, pos));
                }
            },
        }

        proof {
            assert(mseq(result@) == spec_specials_of(s, pos));
            assert(moves@ == spec_singles_of(s, pos));
        }
        let ghost specials = mseq(result@);
        let ghost singles = moves@;
        let mut i: usize = 0;
        while i < moves.len()
            invariant
                i <= singles.len(),
                moves@ == singles,
                mseq(result@) == specials + singles.subrange(0, i as int).map_values(
                    |v: Square| seq![(pos, v)],
                ),
            decreases singles.len() - i,
        {
            let mut one: Vec<Step> = Vec::new();
            one.push((pos, moves[i]));
            proof {
                lemma_mseq_push(result@, one);
            }
            result.push(one);
            proof {
                assert(singles.subrange(0, i as int + 1) =~= singles.subrange(0, i as int).push(
                    singles[i as int],
                ));
                assert(mseq(result@) =~~= specials + singles.subrange(0, i as int + 1).map_values(
                    |v: Square| seq![(pos, v)],
                ));
            }
            i += 1;
        }
        proof {
            assert(singles.subrange(0, singles.len() as int) =~= singles);
            lemma_raw_split(s, pos);
            assert(mseq(result@) =~~= spec_raw_moves(s, pos));
        }
        result
    }

    /// Whether the legality filter accepts one candidate: simulates
    /// its sub-moves on a probe board, testing bounds, occupancy,
    /// friendly capture and — when `test_check` is set — self-check.
    #[verifier::loop_isolation(false)]
    #[verifier::rlimit(100)]
    fn seq_admissible(&self, cand: &Vec<Step>, test_check: bool, own: Ghost<Color>) -> (r: bool)
        requires
            self@.wf(),
            test_check ==> own_steps_ok(self@.bstate(), own@, cand@, 0),
            test_check ==> (self@.ignore_check || self@.ignore_kings || spec_has_king(
                self@.board,
                own@,
            )),
        ensures
            r == spec_seq_ok(self@.bstate(), cand@, test_check, 0),
        decreases flag_count(self@.bstate()), (if test_check {
            45int
        } else {
            15int
        }), 0int,
    {
        let ghost s = self@.bstate();
        let ghost m = cand@;
        let ghost c = own@;
        let mut sim = self.probe_clone();
        let mut ok = true;
        let mut j: usize = 0;
        while j < cand.len() && ok
            invariant
                j <= m.len(),
                cand@ == m,
                sim@.wf(),
                ok ==> (spec_seq_ok(s, m, test_check, 0) <==> spec_seq_ok(
                    sim@.bstate(),
                    m,
                    test_check,
                    j as int,
                )),
                !ok ==> !spec_seq_ok(s, m, test_check, 0),
                ok && test_check ==> own_steps_ok(sim@.bstate(), c, m, j as int),
                ok && test_check ==> (s.ignore_check || s.ignore_kings || spec_has_king(
                    sim@.board,
                    c,
                )),
                sim@.ignore_check == s.ignore_check,
                sim@.ignore_kings == s.ignore_kings,
                flag_count(sim@.bstate()) <= flag_count(s),
            decreases m.len() - j,
        {
            let from = cand[j].0;
            let to = cand[j].1;
            if from.0 > 7 || from.1 > 7 || to.0 > 7 || to.1 > 7 {
                ok = false;
            } else {
                match sim.get_from_pos(from) {
                    None => {
                        ok = false;
                    },
                    Some(p) => {
                        let mut friendly = false;
                        if let Some(o) = sim.get_from_pos(to) {
                            if o.color == p.color {
                                friendly = true;
                            }
                        }
                        if friendly {
                            ok = false;
                        } else {
                            let mut checkfail = false;
                            if test_check {
                                proof {
                                    assert(p.color == c);
                                    if !s.ignore_check && !s.ignore_kings {
                                        lemma_king_preserved(sim@.bstate(), c, from, to);
                                    }
                                }
                                if sim.check_for_check(from, to) {
                                    checkfail = true;
                                }
                            }
                            if checkfail {
                                ok = false;
                            } else {
                                sim.apply_step(from, to);
                            }
                        }
                    },
                }
            }
            j += 1;
        }
        ok
    }

    /// The candidates of raw generation that survive the legality
    /// filter: sub-moves in bounds, no friendly capture, and — when
    /// `test_check` is set — the mover's own king left out of check.
    #[verifier::loop_isolation(false)]
    #[verifier::rlimit(100)]
    pub(crate) fn check_valid_moves(&self, pos: Square, test_check: bool) -> (r: Vec<Vec<Step>>)
        requires
            self@.wf(),
            sq_in_bounds(pos),
            test_check && at(self@.board, pos) is Some ==> self@.ignore_check
                || self@.ignore_kings || spec_has_king(
                self@.board,
                at(self@.board, pos).unwrap().color,
            ),
        ensures
            mseq(r@) == spec_cvm(self@.bstate(), pos, test_check),
        decreases flag_count(self@.bstate()), (if test_check {
            50int
        } else {
            20int
        }), 0int,
    {
        let ghost s = self@.bstate();
        let raw = self.raw_moves(pos);
        let ghost rawseq = mseq(raw@);
        let ghost c = if at(s.board, pos) is Some {
            at(s.board, pos).unwrap().color
        } else {
            Color::White
        };
        proof {
            if at(s.board, pos) is Some {
                lemma_raw_own_steps(s, pos);
            } else {
                assert(rawseq =~= Seq::<Seq<Step>>::empty());
            }
        }
        let mut out: Vec<Vec<Step>> = Vec::new();
        let mut i: usize = 0;
        while i < raw.len()
            invariant
                i <= rawseq.len(),
                mseq(raw@) == rawseq,
                mseq(out@) == spec_filtered(s, rawseq.subrange(0, i as int), test_check),
            decreases rawseq.len() - i,
        {
            proof {
                if test_check {
                    assert(at(s.board, pos) is Some);
                    assert(own_steps_ok(s, c, rawseq[i as int], 0));
                    assert(rawseq[i as int] == raw@[i as int]@);
                }
            }
            let cand = &raw[i];
            let ok = self.seq_admissible(cand, test_check, Ghost(c));
            if ok {
                let kept = copy_steps(cand);
                proof {
                    lemma_mseq_push(out@, kept);
                }
                out.push(kept);
            }
            proof {
                reveal(Seq::filter);
                let pre = rawseq.subrange(0, i as int);
                let cur = rawseq.subrange(0, i as int + 1);
                assert(cur.drop_last() =~= pre);
                assert(cur.last() == rawseq[i as int]);
                assert(cand@ == rawseq[i as int]);
                if ok {
                    assert(mseq(out@) =~= spec_filtered(s, cur, test_check));
                } else {
                    assert(mseq(out@) =~= spec_filtered(s, cur, test_check));
                }
            }
            i += 1;
        }
        proof {
            assert(rawseq.subrange(0, rawseq.len() as int) =~= rawseq);
        }
        out
    }

    /// Whether some check-blind candidate of the piece at `pos` has a
    /// sub-move landing on `target`.
    #[verifier::loop_isolation(false)]
    fn attacks_square(&self, pos: Square, target: Square) -> (r: bool)
        requires
            self@.wf(),
            sq_in_bounds(pos),
        ensures
            r == spec_piece_attacks(self@.bstate(), pos, target),
        decreases flag_count(self@.bstate()), 25int, 0int,
    {
        let ghost s = self@.bstate();
        let mvs = self.check_valid_moves(pos, false);
        let ghost mspec = spec_cvm(s, pos, false);
        let mut j: usize = 0;
        while j < mvs.len()
            invariant
                j <= mvs@.len(),
                forall|a: int, b: int|
                    0 <= a < j && 0 <= b < mspec[a].len() ==> (#[trigger] mspec[a][b]).1
                        != target,
            decreases mvs@.len() - j,
        {
            let mv = &mvs[j];
            let mut k: usize = 0;
            while k < mv.len()
                invariant
                    k <= mv@.len(),
                    forall|b: int| 0 <= b < k ==> (#[trigger] mspec[j as int][b]).1 != target,
                decreases mv@.len() - k,
            {
                let v = mv[k];
                if v.1.0 == target.0 && v.1.1 == target.1 {
                    proof {
                        assert(mspec[j as int] == mvs@[j as int]@);
                        assert(mspec[j as int][k as int] == v);
                        assert(v.1 == target);
                        assert(spec_piece_attacks(s, pos, target));
                    }
                    return true;
                }
                proof {
                    assert(mspec[j as int][k as int] == v);
                }
                k += 1;
            }
            j += 1;
        }
        proof {
            assert(!spec_piece_attacks(s, pos, target));
        }
        false
    }

    /// Whether the king of the given color is currently attacked.
    ///
    /// When check tests are switched off this is always `false`; when
    /// the king is absent it is `false` in permissive mode, and the
    /// caller must not ask otherwise.
    #[verifier::loop_isolation(false)]
    pub fn in_check(&self, color: Color) -> (r: bool)
        requires
            self@.wf(),
            self@.ignore_check || self@.ignore_kings || spec_has_king(self@.board, color),
        ensures
            r == spec_in_check(self@.bstate(), color),
        decreases flag_count(self@.bstate()), 30int, 0int,
    {
        let ghost s = self@.bstate();
        if self.ignores_check() {
            return false;
        }
        let other = match color {
            Color::White => Color::Black,
            Color::Black => Color::White,
        };
        let list = self.by_kind_and_color(Kind::King, color);
        proof {
            lemma_has_king_scan(self@.board, color);
        }
        if list.len() == 0 {
            return false;
        }
        let king = list[0];
        proof {
            lemma_scan_ranks_items(self@.board, |p: Piece| p.color == other, 64);
        }
        let enemies = self.by_color(other);
        let mut i: usize = 0;
        while i < enemies.len()
            invariant
                i <= enemies@.len(),
                forall|a: int|
                    0 <= a < i ==> !spec_piece_attacks(s, (#[trigger] enemies@[a]).0, king.0),
            decreases enemies@.len() - i,
        {
            if self.attacks_square(enemies[i].0, king.0) {
                proof {
                    assert(spec_piece_attacks(s, enemies@[i as int].0, king.0));
                    assert(spec_in_check(s, color));
                }
                return true;
            }
            i += 1;
        }
        proof {
            assert(!spec_in_check(s, color));
        }
        false
    }

    /// Whether making the step `from -> to` would leave the moving
    /// piece's own king in check.
    pub(crate) fn check_for_check(&self, from: Square, to: Square) -> (r: bool)
        requires
            self@.wf(),
            sq_in_bounds(from),
            sq_in_bounds(to),
            at(self@.board, from) is Some,
            self@.ignore_check || self@.ignore_kings || spec_has_king(
                spec_step(self@.bstate(), from, to).board,
                at(self@.board, from).unwrap().color,
            ),
        ensures
            r == spec_check_for_check(self@.bstate(), from, to),
        decreases flag_count(self@.bstate()), 40int, 0int,
    {
        let color = self.get_from_pos(from).unwrap().color;
        let mut probe = self.probe_clone();
        probe.apply_step(from, to);
        probe.in_check(color)
    }

    /// All legal move sequences for the piece at `pos`: the raw
    /// candidates filtered so that no sub-move leaves the board, lands
    /// on a friendly piece, or leaves the mover's own king in check.
    /// An empty square yields an empty list.
    pub fn valid_moves(&self, pos: Square) -> (r: Vec<Vec<Step>>)
        requires
            self@.wf(),
            sq_in_bounds(pos),
            at(self@.board, pos) is Some ==> self@.ignore_check || self@.ignore_kings
                || spec_has_king(self@.board, at(self@.board, pos).unwrap().color),
        ensures
            mseq(r@) == spec_valid_moves(self@.bstate(), pos),
    {
        self.check_valid_moves(pos, true)
    }
}

} // verus!
