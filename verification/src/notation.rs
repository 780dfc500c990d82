//! The notation codec: squares, human-readable move descriptions and
//! the board picture.  Algebraic notation proper lives in `algebraic`.

use vstd::prelude::*;
use crate::engine::{
    at, sq_in_bounds, Color, Game, GameView, Kind, Piece, Square, Step, VictoryStatus,
};

verus! {

/// Builds a `String` from a list of characters.
///
/// Relies on `String`'s `FromIterator` implementation: collecting
/// characters yields the string of exactly those characters in order.
#[verifier::external_body]
pub(crate) fn chars_to_string(v: &Vec<char>) -> (s: String)
    ensures
        s@ == v@,
{
    v.iter().collect()
}

/// The characters of a string slice, in order.
pub(crate) fn str_chars(s: &str) -> (r: Vec<char>)
    ensures
        r@ == s@,
{
    let n = s.unicode_len();
    let mut r: Vec<char> = Vec::new();
    let mut i: usize = 0;
    while i < n
        invariant
            n == s@.len(),
            i <= n,
            r@ == s@.subrange(0, i as int),
        decreases n - i,
    {
        r.push(s.get_char(i));
        i += 1;
    }
    proof {
        assert(r@ =~= s@);
    }
    r
}

/// What a file letter and a rank digit stand for: `A`–`H` or `a`–`h`
/// give the file, `1`–`8` the rank; anything else is rejected with
/// code 2.
pub open spec fn spec_chars_to_pos(a: char, b: char) -> Result<Square, i32> {
    let av = a as u32;
    let bv = b as u32;
    if 65 <= av && av <= 72 {
        if 49 <= bv && bv <= 56 {
            Ok((((av - 65) as usize), ((bv - 49) as usize)))
        } else {
            Err(2)
        }
    } else if 97 <= av && av <= 104 {
        if 49 <= bv && bv <= 56 {
            Ok((((av - 97) as usize), ((bv - 49) as usize)))
        } else {
            Err(2)
        }
    } else {
        Err(2)
    }
}

/// What a square string stands for: exactly two characters, a file
/// letter and a rank digit; a wrong length is rejected with code 1,
/// a wrong character with code 2.
pub open spec fn spec_string_to_pos(s: Seq<char>) -> Result<Square, i32> {
    if s.len() != 2 {
        Err(1)
    } else {
        spec_chars_to_pos(s[0], s[1])
    }
}

/// Decodes a file letter and a rank digit.
pub(crate) fn chars_to_pos(a: char, b: char) -> (r: Result<Square, i32>)
    ensures
        r == spec_chars_to_pos(a, b),
{
    let av = a as u32;
    let bv = b as u32;
    let x: u32;
    if av >= 65 && av <= 72 {
        x = av - 65;
    } else if av >= 97 && av <= 104 {
        x = av - 97;
    } else {
        return Err(2);
    }
    if bv >= 49 && bv <= 56 {
        Ok(((x as usize), ((bv - 49) as usize)))
    } else {
        Err(2)
    }
}

/// Turns a square string such as `B3` into a coordinate pair such as
/// `(1, 2)`.  The file letter may have either case.  A string of the
/// wrong length gives `Err(1)`; an invalid character gives `Err(2)`.
pub fn string_to_pos(string: &str) -> (r: Result<Square, i32>)
    ensures
        r == spec_string_to_pos(string@),
{
    let n = string.unicode_len();
    if n != 2 {
        return Err(1);
    }
    chars_to_pos(string.get_char(0), string.get_char(1))
}

/// The two characters a square prints as: an upper-case file letter
/// and a rank digit.
pub open spec fn spec_pos_chars(pos: Square) -> Seq<char> {
    seq![((65 + pos.0) as u8) as char, ((49 + pos.1) as u8) as char]
}

/// What printing a square yields: its two characters, or `Err(1)` out
/// of bounds.
pub open spec fn spec_pos_to_string(pos: Square) -> Result<Seq<char>, i32> {
    if !sq_in_bounds(pos) {
        Err(1)
    } else {
        Ok(spec_pos_chars(pos))
    }
}

/// Turns a coordinate pair such as `(3, 5)` into a square string such
/// as `D6`, or `Err(1)` when either coordinate is out of bounds.
pub fn pos_to_string(pos: Square) -> (r: Result<String, i32>)
    ensures
        match r {
            Ok(s) => spec_pos_to_string(pos) == Ok::<Seq<char>, i32>(s@),
            Err(e) => spec_pos_to_string(pos) == Err::<Seq<char>, i32>(e),
        },
{
    if pos.0 > 7 || pos.1 > 7 {
        return Err(1);
    }
    let mut v: Vec<char> = Vec::new();
    v.push((65 + pos.0 as u8) as char);
    v.push((49 + pos.1 as u8) as char);
    let s = chars_to_string(&v);
    proof {
        assert(v@ =~= spec_pos_chars(pos));
    }
    Ok(s)
}

/// The lower-case English name of a piece kind.
pub open spec fn spec_kind_name(k: Kind) -> Seq<char> {
    match k {
        Kind::King => "king"@,
        Kind::Queen => "queen"@,
        Kind::Knight => "knight"@,
        Kind::Bishop => "bishop"@,
        Kind::Rook => "rook"@,
        Kind::Pawn => "pawn"@,
    }
}

/// The lower-case English name of a color.
pub open spec fn spec_color_name(c: Color) -> Seq<char> {
    match c {
        Color::White => "white"@,
        Color::Black => "black"@,
    }
}

/// The lower-case English name of a victory status.
pub open spec fn spec_status_name(v: VictoryStatus) -> Seq<char> {
    match v {
        VictoryStatus::Checkmate => "checkmate"@,
        VictoryStatus::Stalemate => "stalemate"@,
        VictoryStatus::Draw => "draw"@,
        VictoryStatus::InProgress => "inprogress"@,
    }
}

/// The name of a piece: its color, a space, its kind.
pub open spec fn spec_piece_name(p: Piece) -> Seq<char> {
    spec_color_name(p.color) + " "@ + spec_kind_name(p.kind)
}

impl Kind {
    /// The kind's lower-case name.
    pub fn name(&self) -> (r: String)
        ensures
            r@ == spec_kind_name(*self),
    {
        match *self {
            Kind::King => String::from_str("king"),
            Kind::Queen => String::from_str("queen"),
            Kind::Knight => String::from_str("knight"),
            Kind::Bishop => String::from_str("bishop"),
            Kind::Rook => String::from_str("rook"),
            Kind::Pawn => String::from_str("pawn"),
        }
    }
}

impl Color {
    /// The color's lower-case name.
    pub fn name(&self) -> (r: String)
        ensures
            r@ == spec_color_name(*self),
    {
        match *self {
            Color::White => String::from_str("white"),
            Color::Black => String::from_str("black"),
        }
    }
}

impl VictoryStatus {
    /// The status's lower-case name.
    pub fn name(&self) -> (r: String)
        ensures
            r@ == spec_status_name(*self),
    {
        match *self {
            VictoryStatus::Checkmate => String::from_str("checkmate"),
            VictoryStatus::Stalemate => String::from_str("stalemate"),
            VictoryStatus::Draw => String::from_str("draw"),
            VictoryStatus::InProgress => String::from_str("inprogress"),
        }
    }
}

impl Piece {
    /// The piece's name: color, a space, kind.
    pub fn name(&self) -> (r: String)
        ensures
            r@ == spec_piece_name(*self),
    {
        let mut s = self.color.name();
        s.append(" ");
        let k = self.kind.name();
        s.append(k.as_str());
        s
    }
}

/// What describing one step yields: the moving piece (when the origin
/// is occupied), the origin square, any piece standing on the
/// destination, and the destination square.
pub open spec fn spec_move_to_string(g: GameView, m: Step) -> Seq<char> {
    let head = match at(g.board, m.0) {
        Some(p) => "Moving "@ + spec_piece_name(p) + " "@,
        None => "Moving "@,
    };
    let mid = head + "from "@ + spec_pos_chars(m.0) + " to "@;
    let tail = match at(g.board, m.1) {
        Some(p) => spec_piece_name(p) + " at "@,
        None => Seq::empty(),
    };
    mid + tail + spec_pos_chars(m.1)
}

/// The descriptions of the steps of `ms` up to index `i`, joined with
/// line breaks.
pub open spec fn spec_moves_joined(g: GameView, ms: Seq<Step>, i: int) -> Seq<char>
    decreases i,
{
    if i <= 0 {
        Seq::empty()
    } else {
        spec_moves_joined(g, ms, i - 1) + (if i - 1 > 0 {
            seq!['\n']
        } else {
            Seq::<char>::empty()
        }) + spec_move_to_string(g, ms[i - 1])
    }
}

impl Game {
    /// Describes one step in words, naming the moving piece and any
    /// piece standing on the destination.
    pub fn move_to_string(&self, m: &Step) -> (r: String)
        requires
            self@.wf(),
            sq_in_bounds(m.0),
            sq_in_bounds(m.1),
        ensures
            r@ == spec_move_to_string(self@, *m),
    {
        let from = m.0;
        let to = m.1;
        let from_string = match pos_to_string(from) {
            Ok(s) => s,
            Err(_) => String::new(),
        };
        let to_string = match pos_to_string(to) {
            Ok(s) => s,
            Err(_) => String::new(),
        };

        let mut s = String::from_str("Moving ");
        if let Some(p) = self.get_from_pos(from) {
            let n = p.name();
            s.append(n.as_str());
            s.append(" ");
        }
        s.append("from ");
        s.append(from_string.as_str());
        s.append(" to ");
        if let Some(p) = self.get_from_pos(to) {
            let n = p.name();
            s.append(n.as_str());
            s.append(" at ");
        }
        s.append(to_string.as_str());
        proof {
            assert(s@ =~= spec_move_to_string(self@, *m));
        }
        s
    }

    /// Describes a whole move sequence, one step per line.
    pub fn moves_to_string(&self, m: &Vec<Step>) -> (r: String)
        requires
            self@.wf(),
            forall|i: int|
                0 <= i < m@.len() ==> sq_in_bounds(#[trigger] m@[i].0) && sq_in_bounds(m@[i].1),
        ensures
            r@ == spec_moves_joined(self@, m@, m@.len() as int),
    {
        let mut s = String::new();
        let mut i: usize = 0;
        while i < m.len()
            invariant
                self@.wf(),
                i <= m@.len(),
                forall|k: int|
                    0 <= k < m@.len() ==> sq_in_bounds(#[trigger] m@[k].0) && sq_in_bounds(
                        m@[k].1,
                    ),
                s@ == spec_moves_joined(self@, m@, i as int),
            decreases m@.len() - i,
        {
            if i != 0 {
                s.append("\n");
            }
            let line = self.move_to_string(&m[i]);
            s.append(line.as_str());
            proof {
                reveal_strlit("\n");
                assert(s@ =~= spec_moves_joined(self@, m@, i as int + 1));
            }
            i += 1;
        }
        s
    }
}

/// The character one board cell prints as: a piece letter (upper case
/// for White, lower case for Black) or its chess symbol, or a space
/// for an empty cell.
pub open spec fn spec_cell_char(c: Option<Piece>, unicode: bool) -> char {
    match c {
        None => ' ',
        Some(p) => match p.color {
            Color::White => if unicode {
                match p.kind {
                    Kind::Pawn => '\u{2659}',
                    Kind::Rook => '\u{2656}',
                    Kind::Knight => '\u{2658}',
                    Kind::Bishop => '\u{2657}',
                    Kind::Queen => '\u{2655}',
                    Kind::King => '\u{2654}',
                }
            } else {
                match p.kind {
                    Kind::Pawn => 'P',
                    Kind::Rook => 'R',
                    Kind::Knight => 'N',
                    Kind::Bishop => 'B',
                    Kind::Queen => 'Q',
                    Kind::King => 'K',
                }
            },
            Color::Black => if unicode {
                match p.kind {
                    Kind::Pawn => '\u{265f}',
                    Kind::Rook => '\u{265c}',
                    Kind::Knight => '\u{265e}',
                    Kind::Bishop => '\u{265d}',
                    Kind::Queen => '\u{265b}',
                    Kind::King => '\u{265a}',
                }
            } else {
                match p.kind {
                    Kind::Pawn => 'p',
                    Kind::Rook => 'r',
                    Kind::Knight => 'n',
                    Kind::Bishop => 'b',
                    Kind::Queen => 'q',
                    Kind::King => 'k',
                }
            },
        },
    }
}

/// One printed rank of the board, from the a-file to the h-file.
pub open spec fn spec_board_row(b: Seq<Option<Piece>>, y: int, unicode: bool) -> Seq<char> {
    Seq::new(8, |x: int| spec_cell_char(at(b, ((x as usize), (y as usize))), unicode))
}

/// The printed rows of the board from rank 8 down, the first `n` of
/// them, separated by line breaks.
pub open spec fn spec_board_rows(b: Seq<Option<Piece>>, unicode: bool, n: int) -> Seq<char>
    decreases n,
{
    if n <= 0 {
        Seq::empty()
    } else {
        spec_board_rows(b, unicode, n - 1) + (if n - 1 > 0 {
            seq!['\n']
        } else {
            Seq::<char>::empty()
        }) + spec_board_row(b, 7 - (n - 1), unicode)
    }
}

impl Game {
    /// The board as text, rank 8 first: piece letters (upper case for
    /// White), or chess symbols when `unicode` is set, and spaces for
    /// empty squares.
    pub fn board_to_string(&self, unicode: bool) -> (r: String)
        requires
            self@.wf(),
        ensures
            r@ == spec_board_rows(self@.board, unicode, 8),
    {
        let mut v: Vec<char> = Vec::new();
        let mut y1: usize = 0;
        while y1 < 8
            invariant
                self@.wf(),
                y1 <= 8,
                v@ == spec_board_rows(self@.board, unicode, y1 as int),
            decreases 8 - y1,
        {
            let y = 7 - y1;
            if y1 != 0 {
                v.push('\n');
            }
            let ghost before = v@;
            let mut x: usize = 0;
            while x < 8
                invariant
                    self@.wf(),
                    y1 < 8,
                    y == 7 - y1,
                    x <= 8,
                    v@ == before + spec_board_row(self@.board, y as int, unicode).subrange(
                        0,
                        x as int,
                    ),
                decreases 8 - x,
            {
                let ch = match self.get_from_pos((x, y)) {
                    None => ' ',
                    Some(p) => match p.color {
                        Color::White => if unicode {
                            match p.kind {
                                Kind::Pawn => '\u{2659}',
                                Kind::Rook => '\u{2656}',
                                Kind::Knight => '\u{2658}',
                                Kind::Bishop => '\u{2657}',
                                Kind::Queen => '\u{2655}',
                                Kind::King => '\u{2654}',
                            }
                        } else {
                            match p.kind {
                                Kind::Pawn => 'P',
                                Kind::Rook => 'R',
                                Kind::Knight => 'N',
                                Kind::Bishop => 'B',
                                Kind::Queen => 'Q',
                                Kind::King => 'K',
                            }
                        },
                        Color::Black => if unicode {
                            match p.kind {
                                Kind::Pawn => '\u{265f}',
                                Kind::Rook => '\u{265c}',
                                Kind::Knight => '\u{265e}',
                                Kind::Bishop => '\u{265d}',
                                Kind::Queen => '\u{265b}',
                                Kind::King => '\u{265a}',
                            }
                        } else {
                            match p.kind {
                                Kind::Pawn => 'p',
                                Kind::Rook => 'r',
                                Kind::Knight => 'n',
                                Kind::Bishop => 'b',
                                Kind::Queen => 'q',
                                Kind::King => 'k',
                            }
                        },
                    },
                };
                v.push(ch);
                proof {
                    assert(v@ =~= before + spec_board_row(
                        self@.board,
                        y as int,
                        unicode,
                    ).subrange(0, x as int + 1));
                }
                x += 1;
            }
            proof {
                assert(spec_board_row(self@.board, y as int, unicode).subrange(0, 8)
                    =~= spec_board_row(self@.board, y as int, unicode));
                assert(v@ =~= spec_board_rows(self@.board, unicode, y1 as int + 1));
            }
            y1 += 1;
        }
        chars_to_string(&v)
    }
}

} // verus!
