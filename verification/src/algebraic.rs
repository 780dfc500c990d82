//! Algebraic notation: rendering a move sequence as text and resolving
//! text back into a move sequence.

use vstd::prelude::*;
use crate::engine::{
    at, other_color, spec_by_kind_and_color, spec_move_pieces, sq_in_bounds, steps_all_in_bounds,
    Color, Game, GameView, Kind, Piece, Square, Step, VictoryStatus,
};
use crate::moves::{
    copy_steps, lemma_scan_files_items, lemma_valid_moves_safe, spec_has_king, spec_in_check,
    spec_valid_moves,
};
use crate::notation::{chars_to_pos, chars_to_string, spec_chars_to_pos, str_chars};
use crate::outcome::spec_check_victory;

verus! {

/// The lower-case letter of a file.
pub open spec fn spec_file_char(x: int) -> char {
    ((97 + x) as u8) as char
}

/// The digit of a rank.
pub open spec fn spec_rank_char(y: int) -> char {
    ((49 + y) as u8) as char
}

/// The letter or black chess symbol of a piece kind in notation.
pub open spec fn spec_piece_letter(k: Kind, unicode: bool) -> char {
    if unicode {
        match k {
            Kind::Rook => '\u{265c}',
            Kind::Knight => '\u{265e}',
            Kind::Bishop => '\u{265d}',
            Kind::Queen => '\u{265b}',
            Kind::King => '\u{265a}',
            Kind::Pawn => ' ',
        }
    } else {
        match k {
            Kind::Rook => 'R',
            Kind::Knight => 'N',
            Kind::Bishop => 'B',
            Kind::Queen => 'Q',
            Kind::King => 'K',
            Kind::Pawn => ' ',
        }
    }
}

/// Some sub-move of the sequence lands on a piece of the opposing
/// color: the ply captures.
#[verifier::opaque]
pub open spec fn spec_any_capture(g: GameView, m: Seq<Step>, c: Color) -> bool {
    exists|i: int|
        0 <= i < m.len() && at(g.board, (#[trigger] m[i]).1) is Some && at(
            g.board,
            m[i].1,
        ).unwrap().color != c
}

/// The final destination of a move sequence.
pub open spec fn spec_last_dest(m: Seq<Step>) -> Square {
    m[m.len() - 1].1
}

/// Some rival standing off the origin's file — another piece of the
/// same kind and color with a legal move to the same destination —
/// forces the origin's file into the notation.
#[verifier::opaque]
pub open spec fn spec_disamb_file(
    g: GameView,
    kind: Kind,
    color: Color,
    orig: Square,
    dest: Square,
) -> bool {
    exists|k: int|
        0 <= k < spec_by_kind_and_color(g.board, kind, color).len() && {
            let p = (#[trigger] spec_by_kind_and_color(g.board, kind, color)[k]).0;
            p.0 != orig.0 && spec_piece_reaches(g, p, dest)
        }
}

/// Some rival standing on the origin's file (so on another rank)
/// forces the origin's rank into the notation.
#[verifier::opaque]
pub open spec fn spec_disamb_rank(
    g: GameView,
    kind: Kind,
    color: Color,
    orig: Square,
    dest: Square,
) -> bool {
    exists|k: int|
        0 <= k < spec_by_kind_and_color(g.board, kind, color).len() && {
            let p = (#[trigger] spec_by_kind_and_color(g.board, kind, color)[k]).0;
            p.0 == orig.0 && p.1 != orig.1 && spec_piece_reaches(g, p, dest)
        }
}

/// The piece at `p` has some legal move ending on `dest`.
pub open spec fn spec_piece_reaches(g: GameView, p: Square, dest: Square) -> bool {
    exists|a: int|
        0 <= a < spec_valid_moves(g.bstate(), p).len() && spec_last_dest(
            #[trigger] spec_valid_moves(g.bstate(), p)[a],
        ) == dest
}

/// The head of a plain move's notation: the piece letter (pawns give
/// their file letter only when capturing), the origin's file and/or
/// rank as disambiguation demands, `x` on a capture, and the
/// destination square.
pub open spec fn spec_an_core(g: GameView, m: Seq<Step>, unicode: bool) -> Seq<char> {
    let piece = at(g.board, m[0].0).unwrap();
    let dest = spec_last_dest(m);
    let cap = spec_any_capture(g, m, piece.color);
    (if piece.kind == Kind::Pawn {
        if cap {
            seq![spec_file_char(m[0].0.0 as int)]
        } else {
            Seq::<char>::empty()
        }
    } else {
        seq![spec_piece_letter(piece.kind, unicode)]
    }) + (if spec_disamb_file(g, piece.kind, piece.color, m[0].0, dest) {
        seq![spec_file_char(m[0].0.0 as int)]
    } else {
        Seq::<char>::empty()
    }) + (if spec_disamb_rank(g, piece.kind, piece.color, m[0].0, dest) {
        seq![spec_rank_char(m[0].0.1 as int)]
    } else {
        Seq::<char>::empty()
    }) + (if cap {
        seq!['x']
    } else {
        Seq::<char>::empty()
    }) + seq![spec_file_char(dest.0 as int), spec_rank_char(dest.1 as int)]
}

/// The trailing marks of a plain move's notation: `e.p.` for the
/// two-step en-passant sequence and `=Q` for a pawn reaching the back
/// rank.
pub open spec fn spec_an_marks(g: GameView, m: Seq<Step>) -> Seq<char> {
    let piece = at(g.board, m[0].0).unwrap();
    let dest = spec_last_dest(m);
    (if m.len() == 2 {
        "e.p."@
    } else {
        Seq::<char>::empty()
    }) + (if piece.kind == Kind::Pawn && (dest.1 == 7 || dest.1 == 0) {
        "=Q"@
    } else {
        Seq::<char>::empty()
    })
}

/// The notation body of a move, without any check or result suffix:
/// castling renders as `0-0` or `0-0-0`; otherwise the head of the
/// move followed by its trailing marks.
pub open spec fn spec_an_body(g: GameView, m: Seq<Step>, unicode: bool) -> Seq<char> {
    if m.len() == 3 {
        if m[0].1.0 == 3 {
            "0-0-0"@
        } else {
            "0-0"@
        }
    } else {
        spec_an_core(g, m, unicode) + spec_an_marks(g, m)
    }
}

/// The check or result suffix of a move, present only when a result
/// is asked for: `#` and the score on checkmate, the draw marker on
/// any other finished game, or `+` when the opponent is left in check
/// without mate.
pub open spec fn spec_an_suffix(g: GameView, m: Seq<Step>, result: bool) -> Seq<char> {
    if !result {
        Seq::empty()
    } else {
        let piece = at(g.board, m[0].0).unwrap();
        let g2 = spec_move_pieces(g, m).0;
        if spec_check_victory(g2) is Some {
            if spec_check_victory(g2).unwrap().0 == VictoryStatus::Checkmate {
                if piece.color == Color::White {
                    "# 1-0"@
                } else {
                    "# 0-1"@
                }
            } else {
                " \u{00bd}-\u{00bd}"@
            }
        } else if spec_in_check(g2.bstate(), other_color(piece.color)) {
            seq!['+']
        } else {
            Seq::<char>::empty()
        }
    }
}

/// What rendering a move yields: its body, then its suffix.
pub open spec fn spec_move_to_an(g: GameView, m: Seq<Step>, result: bool, unicode: bool) -> Seq<
    char,
> {
    spec_an_body(g, m, unicode) + spec_an_suffix(g, m, result)
}

impl Game {
    /// Whether any sub-move of `m` captures an opposing piece.
    #[verifier::loop_isolation(false)]
    fn any_capture(&self, m: &Vec<Step>, c: Color) -> (r: bool)
        requires
            self@.wf(),
            steps_all_in_bounds(m@),
        ensures
            r == spec_any_capture(self@, m@, c),
    {
        let ghost g = self@;
        let mut capture = false;
        let mut ci: usize = 0;
        while ci < m.len()
            invariant
                ci <= m@.len(),
                capture == exists|i: int|
                    0 <= i < ci && at(g.board, (#[trigger] m@[i]).1) is Some && at(
                        g.board,
                        m@[i].1,
                    ).unwrap().color != c,
            decreases m@.len() - ci,
        {
            proof {
                assert(sq_in_bounds(m@[ci as int].0) && sq_in_bounds(m@[ci as int].1));
            }
            if let Some(p) = self.get_from_pos(m[ci].1) {
                if p.color != c {
                    capture = true;
                    proof {
                        assert(at(g.board, m@[ci as int].1) is Some && at(
                            g.board,
                            m@[ci as int].1,
                        ).unwrap().color != c);
                    }
                }
            }
            ci += 1;
        }
        proof {
            reveal(spec_any_capture);
            assert(capture == spec_any_capture(g, m@, c));
        }
        capture
    }

    /// Which origin coordinates notation must carry: the file when
    /// some rival off the origin's file reaches the destination, the
    /// rank when some rival on the origin's file does.
    #[verifier::loop_isolation(false)]
    #[verifier::rlimit(100)]
    fn disamb_flags(&self, kind: Kind, color: Color, orig: Square, dest: Square) -> (r: (
        bool,
        bool,
    ))
        requires
            self@.wf(),
            self@.ignore_check || self@.ignore_kings || spec_has_king(self@.board, color),
        ensures
            r.0 == spec_disamb_file(self@, kind, color, orig, dest),
            r.1 == spec_disamb_rank(self@, kind, color, orig, dest),
    {
        let ghost g = self@;
        let list = self.by_kind_and_color(kind, color);
        proof {
            lemma_scan_files_items(g.board, |p: Piece| p.kind == kind && p.color == color, 64);
        }
        let mut col = false;
        let mut row = false;
        let mut di: usize = 0;
        while di < list.len()
            invariant
                di <= list@.len(),
                col == exists|k: int|
                    0 <= k < di && {
                        let p = (#[trigger] spec_by_kind_and_color(g.board, kind, color)[k]).0;
                        p.0 != orig.0 && spec_piece_reaches(g, p, dest)
                    },
                row == exists|k: int|
                    0 <= k < di && {
                        let p = (#[trigger] spec_by_kind_and_color(g.board, kind, color)[k]).0;
                        p.0 == orig.0 && p.1 != orig.1 && spec_piece_reaches(g, p, dest)
                    },
            decreases list@.len() - di,
        {
            let p = list[di].0;
            if p.0 != orig.0 || p.1 != orig.1 {
                let mvs = self.valid_moves(p);
                let mut a: usize = 0;
                let mut hit = false;
                while a < mvs.len()
                    invariant
                        a <= mvs@.len(),
                        hit == exists|b: int|
                            0 <= b < a && spec_last_dest(
                                #[trigger] spec_valid_moves(g.bstate(), p)[b],
                            ) == dest,
                    decreases mvs@.len() - a,
                {
                    proof {
                        lemma_valid_moves_safe(g, p, a as int);
                    }
                    let v = &mvs[a];
                    let last = v[v.len() - 1];
                    if last.1.0 == dest.0 && last.1.1 == dest.1 {
                        proof {
                            assert(spec_valid_moves(g.bstate(), p)[a as int] == v@);
                            assert(spec_last_dest(spec_valid_moves(g.bstate(), p)[a as int])
                                == dest);
                        }
                        hit = true;
                    }
                    a += 1;
                }
                if hit {
                    proof {
                        assert(spec_piece_reaches(g, p, dest));
                        assert(spec_by_kind_and_color(g.board, kind, color)[di as int].0 == p);
                    }
                    if p.0 == orig.0 {
                        row = true;
                    } else {
                        col = true;
                    }
                }
            }
            di += 1;
        }
        proof {
            reveal(spec_disamb_file);
            reveal(spec_disamb_rank);
            assert(col == spec_disamb_file(g, kind, color, orig, dest));
            assert(row == spec_disamb_rank(g, kind, color, orig, dest));
        }
        (col, row)
    }

    /// Renders the notation body of a move: castling marks, the piece
    /// or file letter, any disambiguating origin coordinates, the
    /// capture mark, the destination, and the en-passant and promotion
    /// marks.
    #[verifier::rlimit(100)]
    fn an_body(&self, m: &Vec<Step>, unicode: bool, out: &mut Vec<char>) -> (p: Piece)
        requires
            old(out)@.len() == 0,
            self@.wf(),
            m@.len() >= 1,
            steps_all_in_bounds(m@),
            at(self@.board, m@[0].0) is Some,
            m@.len() == 2 ==> at(self@.board, m@[0].0).unwrap().kind == Kind::Pawn,
            m@.len() == 3 ==> m@[0].1.0 == 3 || m@[0].1.0 == 5,
            self@.ignore_check || self@.ignore_kings || spec_has_king(
                self@.board,
                at(self@.board, m@[0].0).unwrap().color,
            ),
        ensures
            final(out)@ == spec_an_body(self@, m@, unicode),
            p == at(self@.board, m@[0].0).unwrap(),
    {
        let ghost g = self@;
        let piece = self.get_from_pos(m[0].0).unwrap();
        let dest = m[m.len() - 1].1;
        proof {
            assert(sq_in_bounds(m@[m@.len() - 1].0) && sq_in_bounds(m@[m@.len() - 1].1));
            assert(sq_in_bounds(dest));
        }
        let capture = self.any_capture(m, piece.color);

        if m.len() == 3 {
            proof {
                reveal_strlit("0-0-0");
                reveal_strlit("0-0");
            }
            if m[0].1.0 == 3 {
                out.push('0');
                out.push('-');
                out.push('0');
                out.push('-');
                out.push('0');
                proof {
                    assert(out@ =~= "0-0-0"@);
                }
            } else {
                out.push('0');
                out.push('-');
                out.push('0');
                proof {
                    assert(out@ =~= "0-0"@);
                }
            }
        } else {
            self.an_plain_body(m, unicode, capture, out);
        }
        piece
    }

    /// Renders the head of a plain move: the piece or file letter,
    /// any disambiguating origin coordinates, the capture mark and the
    /// destination square.
    #[verifier::rlimit(100)]
    fn an_core(&self, m: &Vec<Step>, unicode: bool, capture: bool, out: &mut Vec<char>)
        requires
            old(out)@.len() == 0,
            self@.wf(),
            m@.len() >= 1,
            steps_all_in_bounds(m@),
            at(self@.board, m@[0].0) is Some,
            capture == spec_any_capture(self@, m@, at(self@.board, m@[0].0).unwrap().color),
            self@.ignore_check || self@.ignore_kings || spec_has_king(
                self@.board,
                at(self@.board, m@[0].0).unwrap().color,
            ),
        ensures
            final(out)@ == spec_an_core(self@, m@, unicode),
    {
        let ghost g = self@;
        let piece = self.get_from_pos(m[0].0).unwrap();
        let dest = m[m.len() - 1].1;
        proof {
            assert(sq_in_bounds(m@[m@.len() - 1].0) && sq_in_bounds(m@[m@.len() - 1].1));
            assert(sq_in_bounds(dest));
        }
        if piece.kind == Kind::Pawn {
            if capture {
                out.push(file_char(m[0].0.0));
            }
        } else {
            out.push(piece_letter(piece.kind, unicode));
        }
        let flags = self.disamb_flags(piece.kind, piece.color, m[0].0, dest);
        if flags.0 {
            out.push(file_char(m[0].0.0));
        }
        if flags.1 {
            out.push(rank_char(m[0].0.1));
        }
        if capture {
            out.push('x');
        }
        out.push(file_char(dest.0));
        out.push(rank_char(dest.1));
        proof {
            assert(out@ =~= spec_an_core(g, m@, unicode));
        }
    }

    /// Renders the non-castling notation body: the head of the move,
    /// then the en-passant and promotion marks.
    #[verifier::rlimit(100)]
    fn an_plain_body(&self, m: &Vec<Step>, unicode: bool, capture: bool, out: &mut Vec<char>)
        requires
            old(out)@.len() == 0,
            self@.wf(),
            m@.len() >= 1,
            m@.len() != 3,
            steps_all_in_bounds(m@),
            at(self@.board, m@[0].0) is Some,
            capture == spec_any_capture(self@, m@, at(self@.board, m@[0].0).unwrap().color),
            self@.ignore_check || self@.ignore_kings || spec_has_king(
                self@.board,
                at(self@.board, m@[0].0).unwrap().color,
            ),
        ensures
            final(out)@ == spec_an_body(self@, m@, unicode),
    {
        let ghost g = self@;
        let piece = self.get_from_pos(m[0].0).unwrap();
        let dest = m[m.len() - 1].1;
        proof {
            assert(sq_in_bounds(m@[m@.len() - 1].0) && sq_in_bounds(m@[m@.len() - 1].1));
            assert(sq_in_bounds(dest));
        }
        self.an_core(m, unicode, capture, out);
        let ghost core = out@;
        if m.len() == 2 {
            proof {
                reveal_strlit("e.p.");
            }
            out.push('e');
            out.push('.');
            out.push('p');
            out.push('.');
        }
        if piece.kind == Kind::Pawn && (dest.1 == 7 || dest.1 == 0) {
            proof {
                reveal_strlit("=Q");
            }
            out.push('=');
            out.push('Q');
        }
        proof {
            assert(out@ =~= core + spec_an_marks(g, m@));
            assert(spec_an_body(g, m@, unicode) == spec_an_core(g, m@, unicode) + spec_an_marks(
                g,
                m@,
            ));
        }
    }

    /// Renders a move sequence, as returned from `valid_moves`, in
    /// algebraic notation.  With `result` set, a finished game gets
    /// `#` and a score or a draw marker appended, and a move leaving
    /// the opponent in check without mate gets `+`; with `unicode`
    /// set, pieces render as black chess symbols instead of letters.
    #[verifier::rlimit(100)]
    pub fn move_to_an(&self, m: &Vec<Step>, result: bool, unicode: bool) -> (r: String)
        requires
            self@.wf(),
            m@.len() >= 1,
            steps_all_in_bounds(m@),
            at(self@.board, m@[0].0) is Some,
            m@.len() == 2 ==> at(self@.board, m@[0].0).unwrap().kind == Kind::Pawn,
            m@.len() == 3 ==> m@[0].1.0 == 3 || m@[0].1.0 == 5,
            self@.ignore_check || self@.ignore_kings || spec_has_king(
                self@.board,
                at(self@.board, m@[0].0).unwrap().color,
            ),
            result ==> self@.clock + m@.len() <= u32::MAX,
            result ==> ({
                let g2 = spec_move_pieces(self@, m@).0;
                g2.ignore_check || g2.ignore_kings || (spec_has_king(g2.board, Color::White)
                    && spec_has_king(g2.board, Color::Black))
            }),
        ensures
            r@ == spec_move_to_an(self@, m@, result, unicode),
    {
        let ghost g = self@;
        let mut out: Vec<char> = Vec::new();
        let piece = self.an_body(m, unicode, &mut out);
        let ghost body = out@;

        if result {
            let other = match piece.color {
                Color::White => Color::Black,
                Color::Black => Color::White,
            };
            let mut moved = self.full_clone();
            moved.move_pieces(m);
            if let Some(v) = moved.check_victory() {
                if v.0 == VictoryStatus::Checkmate {
                    proof {
                        reveal_strlit("# 1-0");
                        reveal_strlit("# 0-1");
                    }
                    out.push('#');
                    out.push(' ');
                    match piece.color {
                        Color::White => {
                            out.push('1');
                            out.push('-');
                            out.push('0');
                        }
                        Color::Black => {
                            out.push('0');
                            out.push('-');
                            out.push('1');
                        }
                    }
                } else {
                    proof {
                        reveal_strlit(" \u{00bd}-\u{00bd}");
                    }
                    out.push(' ');
                    out.push('\u{00bd}');
                    out.push('-');
                    out.push('\u{00bd}');
                }
            } else if moved.in_check(other) {
                out.push('+');
            }
        }
        proof {
            assert(out@ =~= body + spec_an_suffix(g, m@, result));
        }
        chars_to_string(&out)
    }
}

/// The lower-case letter of a file.
fn file_char(x: usize) -> (r: char)
    requires
        x <= 7,
    ensures
        r == spec_file_char(x as int),
{
    (97 + x as u8) as char
}

/// The digit of a rank.
fn rank_char(y: usize) -> (r: char)
    requires
        y <= 7,
    ensures
        r == spec_rank_char(y as int),
{
    (49 + y as u8) as char
}

/// The letter or black chess symbol of a piece kind.
fn piece_letter(k: Kind, unicode: bool) -> (r: char)
    ensures
        r == spec_piece_letter(k, unicode),
{
    if unicode {
        match k {
            Kind::Rook => '\u{265c}',
            Kind::Knight => '\u{265e}',
            Kind::Bishop => '\u{265d}',
            Kind::Queen => '\u{265b}',
            Kind::King => '\u{265a}',
            Kind::Pawn => ' ',
        }
    } else {
        match k {
            Kind::Rook => 'R',
            Kind::Knight => 'N',
            Kind::Bishop => 'B',
            Kind::Queen => 'Q',
            Kind::King => 'K',
            Kind::Pawn => ' ',
        }
    }
}

} // verus!

verus! {

/// The parsed hints of a notation string: an optional origin file and
/// rank, and an optional destination file and rank.
#[derive(PartialEq, Eq, Structural, Clone, Copy, Debug)]
pub struct AnHints {
    pub ox: Option<usize>,
    pub oy: Option<usize>,
    pub tx: Option<usize>,
    pub ty: Option<usize>,
}

/// A hint is met when it is absent or names the value.
pub open spec fn spec_hint(h: Option<usize>, v: usize) -> bool {
    h is None || h == Some(v)
}

/// The piece kind a leading letter or chess symbol names; anything
/// else means a pawn.
pub open spec fn spec_kind_of_char(c: char) -> Kind {
    if c == 'R' || c == '\u{2656}' || c == '\u{265c}' {
        Kind::Rook
    } else if c == 'N' || c == '\u{2658}' || c == '\u{265e}' {
        Kind::Knight
    } else if c == 'B' || c == '\u{2657}' || c == '\u{265d}' {
        Kind::Bishop
    } else if c == 'Q' || c == '\u{2655}' || c == '\u{265b}' {
        Kind::Queen
    } else if c == 'K' || c == '\u{2654}' || c == '\u{265a}' {
        Kind::King
    } else {
        Kind::Pawn
    }
}

/// The effective length of a pawn move string, with a trailing `e.p.`
/// or `=Q` decoration stripped.
pub open spec fn spec_pawn_len(s: Seq<char>) -> int {
    if s.len() >= 6 && s[s.len() - 4] == 'e' && s[s.len() - 3] == '.' && s[s.len() - 2] == 'p'
        && s[s.len() - 1] == '.' {
        s.len() - 4
    } else if s.len() >= 4 && s[s.len() - 2] == '=' && s[s.len() - 1] == 'Q' {
        s.len() - 2
    } else {
        s.len() as int
    }
}

/// What parsing the hints of a notation string yields, or `None` when
/// the string is malformed.  A pawn string ends in a destination
/// square, a destination file alone, and may start with an origin
/// square (only counted when more follows) or an origin file.  A piece
/// string may carry an origin square, file or rank after its letter,
/// and must end in a destination square.
pub open spec fn spec_parse_an(s: Seq<char>, kind: Kind) -> Option<AnHints> {
    if kind == Kind::Pawn {
        let len = spec_pawn_len(s);
        let target = spec_chars_to_pos(s[len - 2], s[len - 1]);
        let tgt: Option<(Option<usize>, Option<usize>)> = match target {
            Ok(pos) => Some((Some(pos.0), Some(pos.1))),
            Err(_) => match spec_chars_to_pos(s[len - 1], '1') {
                Ok(pos) => Some((Some(pos.0), None)),
                Err(_) => None,
            },
        };
        match tgt {
            None => None,
            Some(t) => {
                let org: Option<(Option<usize>, Option<usize>)> = if len >= 2 {
                    match spec_chars_to_pos(s[0], s[1]) {
                        Ok(pos) => if len > 2 {
                            Some((Some(pos.0), Some(pos.1)))
                        } else {
                            Some((None, None))
                        },
                        Err(_) => match spec_chars_to_pos(s[0], '1') {
                            Ok(pos) => Some((Some(pos.0), None)),
                            Err(_) => None,
                        },
                    }
                } else {
                    Some((None, None))
                };
                match org {
                    None => None,
                    Some(o) => Some(AnHints { ox: o.0, oy: o.1, tx: t.0, ty: t.1 }),
                }
            },
        }
    } else {
        if s.len() < 3 {
            None
        } else {
            let org: Option<(Option<usize>, Option<usize>)> = if s.len() > 3 {
                match spec_chars_to_pos(s[1], s[2]) {
                    Ok(pos) => Some((Some(pos.0), Some(pos.1))),
                    Err(_) => if s[1] == 'x' {
                        Some((None, None))
                    } else {
                        match spec_chars_to_pos(s[1], '1') {
                            Ok(pos) => Some((Some(pos.0), None)),
                            Err(_) => match spec_chars_to_pos('E', s[1]) {
                                Ok(pos) => Some((None, Some(pos.1))),
                                Err(_) => None,
                            },
                        }
                    },
                }
            } else {
                Some((None, None))
            };
            match org {
                None => None,
                Some(o) => match spec_chars_to_pos(s[s.len() - 2], s[s.len() - 1]) {
                    Ok(pos) => Some(
                        AnHints { ox: o.0, oy: o.1, tx: Some(pos.0), ty: Some(pos.1) },
                    ),
                    Err(_) => None,
                },
            }
        }
    }
}

/// The legal moves of the piece at `p`, among the first `j`, whose
/// final destination meets the target hints.
pub open spec fn spec_piece_hits(g: GameView, p: Square, h: AnHints, j: int) -> Seq<Seq<Step>>
    decreases j,
{
    if j <= 0 {
        Seq::empty()
    } else {
        spec_piece_hits(g, p, h, j - 1) + {
            let v = spec_valid_moves(g.bstate(), p)[j - 1];
            if spec_hint(h.tx, spec_last_dest(v).0) && spec_hint(h.ty, spec_last_dest(v).1) {
                seq![v]
            } else {
                Seq::empty()
            }
        }
    }
}

/// The hits of all pieces of the kind and color among the first `k` of
/// the scan, counting only pieces that meet the origin hints.
pub open spec fn spec_an_hits(g: GameView, kind: Kind, color: Color, h: AnHints, k: int) -> Seq<
    Seq<Step>,
>
    decreases k,
{
    if k <= 0 {
        Seq::empty()
    } else {
        spec_an_hits(g, kind, color, h, k - 1) + {
            let it = spec_by_kind_and_color(g.board, kind, color)[k - 1];
            if spec_hint(h.ox, it.0.0) && spec_hint(h.oy, it.0.1) {
                spec_piece_hits(g, it.0, h, spec_valid_moves(g.bstate(), it.0).len() as int)
            } else {
                Seq::empty()
            }
        }
    }
}

/// The resolution of parsed hints: the unique matching move, or
/// nothing when no move or more than one matches.
pub open spec fn spec_an_result(g: GameView, kind: Kind, color: Color, h: AnHints) -> Option<
    Seq<Step>,
> {
    let hits = spec_an_hits(
        g,
        kind,
        color,
        h,
        spec_by_kind_and_color(g.board, kind, color).len() as int,
    );
    if hits.len() == 1 {
        Some(hits[0])
    } else {
        None
    }
}

/// The first legal move of the king (the last one in scan order) that
/// is a castle to the named side, from index `j` on.
pub open spec fn spec_first_castle(mvs: Seq<Seq<Step>>, kingside: bool, j: int) -> Option<
    Seq<Step>,
>
    decreases mvs.len() - j,
{
    if j < 0 || j >= mvs.len() {
        None
    } else if mvs[j][0].1.0 == (if kingside {
        5usize
    } else {
        3usize
    }) {
        Some(mvs[j])
    } else {
        spec_first_castle(mvs, kingside, j + 1)
    }
}

/// What a castle string resolves to: the first castle of the named
/// side among the legal moves of the scan's last king.
pub open spec fn spec_castle_answer(g: GameView, kingside: bool, color: Color) -> Option<
    Seq<Step>,
> {
    let kings = spec_by_kind_and_color(g.board, Kind::King, color);
    let kpos = kings[kings.len() - 1].0;
    spec_first_castle(spec_valid_moves(g.bstate(), kpos), kingside, 0)
}

/// What resolving a notation string yields: nothing for a string
/// shorter than two characters, the castle answer for `0-0` and
/// `0-0-0`, and otherwise the unique legal move meeting the parsed
/// hints of the string — or nothing when the string is malformed, no
/// move matches, or several do.
pub open spec fn spec_an_to_move(g: GameView, s: Seq<char>, color: Color) -> Option<Seq<Step>> {
    if s.len() < 2 {
        None
    } else if s == "0-0"@ {
        spec_castle_answer(g, true, color)
    } else if s == "0-0-0"@ {
        spec_castle_answer(g, false, color)
    } else {
        let kind = spec_kind_of_char(s[0]);
        match spec_parse_an(s, kind) {
            None => None,
            Some(h) => spec_an_result(g, kind, color, h),
        }
    }
}

proof fn lemma_an_hits_prefix(g: GameView, kind: Kind, color: Color, h: AnHints, k1: int, k2: int)
    requires
        0 <= k1 <= k2,
    ensures
        spec_an_hits(g, kind, color, h, k1).len() <= spec_an_hits(g, kind, color, h, k2).len(),
    decreases k2,
{
    if k2 > k1 {
        lemma_an_hits_prefix(g, kind, color, h, k1, k2 - 1);
    }
}

/// Decodes the hints of a notation string that is not a castle.
fn parse_an(cs: &Vec<char>, kind: Kind) -> (r: Option<AnHints>)
    requires
        cs@.len() >= 2,
    ensures
        r == spec_parse_an(cs@, kind),
{
    if matches!(kind, Kind::Pawn) {
        let mut len = cs.len();
        if len >= 6 && cs[len - 4] == 'e' && cs[len - 3] == '.' && cs[len - 2] == 'p' && cs[len
            - 1] == '.' {
            len = len - 4;
        } else if len >= 4 && cs[len - 2] == '=' && cs[len - 1] == 'Q' {
            len = len - 2;
        }
        let tx: Option<usize>;
        let mut ty: Option<usize> = None;
        match chars_to_pos(cs[len - 2], cs[len - 1]) {
            Ok(pos) => {
                tx = Some(pos.0);
                ty = Some(pos.1);
            },
            Err(_) => {
                match chars_to_pos(cs[len - 1], '1') {
                    Ok(pos) => {
                        tx = Some(pos.0);
                    },
                    Err(_) => {
                        return None;
                    },
                }
            },
        }
        let mut ox: Option<usize> = None;
        let mut oy: Option<usize> = None;
        match chars_to_pos(cs[0], cs[1]) {
            Ok(pos) => {
                if len > 2 {
                    ox = Some(pos.0);
                    oy = Some(pos.1);
                }
            },
            Err(_) => {
                match chars_to_pos(cs[0], '1') {
                    Ok(pos) => {
                        ox = Some(pos.0);
                    },
                    Err(_) => {
                        return None;
                    },
                }
            },
        }
        Some(AnHints { ox, oy, tx, ty })
    } else {
        let len = cs.len();
        if len < 3 {
            return None;
        }
        let mut ox: Option<usize> = None;
        let mut oy: Option<usize> = None;
        if len > 3 {
            match chars_to_pos(cs[1], cs[2]) {
                Ok(pos) => {
                    ox = Some(pos.0);
                    oy = Some(pos.1);
                },
                Err(_) => {
                    if cs[1] != 'x' {
                        match chars_to_pos(cs[1], '1') {
                            Ok(pos) => {
                                ox = Some(pos.0);
                            },
                            Err(_) => {
                                match chars_to_pos('E', cs[1]) {
                                    Ok(pos) => {
                                        oy = Some(pos.1);
                                    },
                                    Err(_) => {
                                        return None;
                                    },
                                }
                            },
                        }
                    }
                },
            }
        }
        match chars_to_pos(cs[len - 2], cs[len - 1]) {
            Ok(pos) => Some(AnHints { ox, oy, tx: Some(pos.0), ty: Some(pos.1) }),
            Err(_) => None,
        }
    }
}

impl Game {
    /// Resolves the unique legal move meeting parsed hints.
    #[verifier::loop_isolation(false)]
    #[verifier::rlimit(100)]
    fn an_search(&self, kind: Kind, color: Color, h: AnHints) -> (r: Option<Vec<Step>>)
        requires
            self@.wf(),
            self@.ignore_check || self@.ignore_kings || spec_has_king(self@.board, color),
        ensures
            match r {
                Some(v) => spec_an_result(self@, kind, color, h) == Some(v@),
                None => spec_an_result(self@, kind, color, h) is None,
            },
    {
        let ghost g = self@;
        let list = self.by_kind_and_color(kind, color);
        proof {
            lemma_scan_files_items(g.board, |p: Piece| p.kind == kind && p.color == color, 64);
        }
        let mut found = false;
        let mut result: Option<Vec<Step>> = None;
        let mut k: usize = 0;
        while k < list.len()
            invariant
                k <= list@.len(),
                spec_an_hits(g, kind, color, h, k as int).len() == (if found {
                    1int
                } else {
                    0int
                }),
                match result {
                    Some(v) => found && v@ == spec_an_hits(g, kind, color, h, k as int)[0],
                    None => !found,
                },
            decreases list@.len() - k,
        {
            let p = list[k].0;
            let chosen = (match h.ox {
                Some(x) => x == p.0,
                None => true,
            }) && (match h.oy {
                Some(y) => y == p.1,
                None => true,
            });
            let ghost base = spec_an_hits(g, kind, color, h, k as int);
            if chosen {
                let mvs = self.valid_moves(p);
                let mut j: usize = 0;
                while j < mvs.len()
                    invariant
                        j <= mvs@.len(),
                        (base + spec_piece_hits(g, p, h, j as int)).len() == (if found {
                            1int
                        } else {
                            0int
                        }),
                        match result {
                            Some(v) => found && v@ == (base + spec_piece_hits(
                                g,
                                p,
                                h,
                                j as int,
                            ))[0],
                            None => !found,
                        },
                    decreases mvs@.len() - j,
                {
                    proof {
                        lemma_valid_moves_safe(g, p, j as int);
                    }
                    let v = &mvs[j];
                    let last = v[v.len() - 1];
                    proof {
                        assert(v@ == spec_valid_moves(g.bstate(), p)[j as int]);
                        assert(spec_last_dest(v@) == last.1);
                    }
                    let hit = (match h.tx {
                        Some(x) => x == last.1.0,
                        None => true,
                    }) && (match h.ty {
                        Some(y) => y == last.1.1,
                        None => true,
                    });
                    if hit {
                        if found {
                            proof {
                                let kk = spec_by_kind_and_color(g.board, kind, color).len() as int;
                                assert((base + spec_piece_hits(g, p, h, j as int + 1)).len()
                                    >= 2);
                                lemma_piece_hits_prefix(g, p, h, j as int + 1, spec_valid_moves(
                                    g.bstate(),
                                    p,
                                ).len() as int);
                                assert(spec_an_hits(g, kind, color, h, k as int + 1).len() >= 2);
                                lemma_an_hits_prefix(g, kind, color, h, k as int + 1, kk);
                            }
                            return None;
                        } else {
                            found = true;
                            result = Some(copy_steps(v));
                        }
                    }
                    j += 1;
                }
                proof {
                    lemma_piece_hits_prefix(g, p, h, mvs@.len() as int, spec_valid_moves(
                        g.bstate(),
                        p,
                    ).len() as int);
                    assert(spec_an_hits(g, kind, color, h, k as int + 1) == base
                        + spec_piece_hits(g, p, h, spec_valid_moves(g.bstate(), p).len() as int));
                }
            } else {
                proof {
                    assert(spec_an_hits(g, kind, color, h, k as int + 1) =~= base);
                }
            }
            k += 1;
        }
        proof {
            assert(list@.len() == spec_by_kind_and_color(g.board, kind, color).len());
        }
        result
    }

    /// Resolves an algebraic-notation string, possibly abbreviated,
    /// into a move sequence for `move_pieces`.  `x`, `=Q` and `e.p.`
    /// decorations are tolerated anywhere they could stand.  Returns
    /// `None` both for malformed text and for a move that no piece, or
    /// more than one piece, can make; the two are not distinguished.
    #[verifier::loop_isolation(false)]
    #[verifier::rlimit(100)]
    pub fn an_to_move(&self, s: &str, color: Color) -> (r: Option<Vec<Step>>)
        requires
            self@.wf(),
            self@.ignore_check || self@.ignore_kings || spec_has_king(self@.board, color),
            (s@ == "0-0"@ || s@ == "0-0-0"@) ==> spec_by_kind_and_color(
                self@.board,
                Kind::King,
                color,
            ).len() > 0,
        ensures
            match r {
                Some(v) => spec_an_to_move(self@, s@, color) == Some(v@),
                None => spec_an_to_move(self@, s@, color) is None,
            },
    {
        let ghost g = self@;
        let cs = str_chars(s);
        if cs.len() < 2 {
            return None;
        }
        proof {
            reveal_strlit("0-0");
            reveal_strlit("0-0-0");
        }
        let is_short = cs.len() == 3 && cs[0] == '0' && cs[1] == '-' && cs[2] == '0';
        let is_long = cs.len() == 5 && cs[0] == '0' && cs[1] == '-' && cs[2] == '0' && cs[3]
            == '-' && cs[4] == '0';
        proof {
            if is_short {
                assert(s@ =~= "0-0"@);
            }
            if is_long {
                assert(s@ =~= "0-0-0"@);
            }
            if s@ == "0-0"@ {
                assert(is_short);
            }
            if s@ == "0-0-0"@ {
                assert(is_long);
            }
        }
        if is_short || is_long {
            let tmp = self.by_kind_and_color(Kind::King, color);
            proof {
                lemma_scan_files_items(
                    g.board,
                    |p: Piece| p.kind == Kind::King && p.color == color,
                    64,
                );
            }
            let v = tmp[tmp.len() - 1];
            let mvs = self.valid_moves(v.0);
            let ghost mspec = spec_valid_moves(g.bstate(), v.0);
            let mut j: usize = 0;
            while j < mvs.len()
                invariant
                    j <= mvs@.len(),
                    spec_first_castle(mspec, is_short, 0) == spec_first_castle(
                        mspec,
                        is_short,
                        j as int,
                    ),
                decreases mvs@.len() - j,
            {
                proof {
                    lemma_valid_moves_safe(g, v.0, j as int);
                }
                let cand = &mvs[j];
                let first = cand[0];
                if (is_short && first.1.0 == 5) || (is_long && first.1.0 == 3) {
                    proof {
                        assert(cand@ == mspec[j as int]);
                        assert(spec_first_castle(mspec, is_short, j as int) == Some(cand@));
                    }
                    return Some(copy_steps(cand));
                }
                j += 1;
            }
            return None;
        }
        let c0 = cs[0];
        let kind = if c0 == 'R' || c0 == '\u{2656}' || c0 == '\u{265c}' {
            Kind::Rook
        } else if c0 == 'N' || c0 == '\u{2658}' || c0 == '\u{265e}' {
            Kind::Knight
        } else if c0 == 'B' || c0 == '\u{2657}' || c0 == '\u{265d}' {
            Kind::Bishop
        } else if c0 == 'Q' || c0 == '\u{2655}' || c0 == '\u{265b}' {
            Kind::Queen
        } else if c0 == 'K' || c0 == '\u{2654}' || c0 == '\u{265a}' {
            Kind::King
        } else {
            Kind::Pawn
        };
        proof {
            assert(kind == spec_kind_of_char(s@[0]));
        }
        match parse_an(&cs, kind) {
            None => None,
            Some(h) => self.an_search(kind, color, h),
        }
    }
}

proof fn lemma_piece_hits_prefix(g: GameView, p: Square, h: AnHints, j1: int, j2: int)
    requires
        0 <= j1 <= j2,
    ensures
        spec_piece_hits(g, p, h, j1).len() <= spec_piece_hits(g, p, h, j2).len(),
    decreases j2,
{
    if j2 > j1 {
        lemma_piece_hits_prefix(g, p, h, j1, j2 - 1);
    }
}

} // verus!
