//! The pure decision kernels of the hosting transaction layer: match
//! replay, submitted-move validation, and the textual match summary.

use vstd::prelude::*;
use crate::engine::{
    spec_move_piece, spec_new_game, Game, GameView, Square, Step,
};
use crate::notation::chars_to_string;
use crate::state::ChessMove;

verus! {

/// The game reached by replaying a persisted move list from the
/// standard start, the first `i` moves applied (unchecked, as they
/// were validated when recorded).
pub open spec fn spec_replay(ms: Seq<ChessMove>, i: int) -> GameView
    decreases i,
{
    if i <= 0 {
        spec_new_game()
    } else {
        spec_move_piece(spec_replay(ms, i - 1), ms[i - 1].original, ms[i - 1].new)
    }
}

proof fn lemma_replay_clock(ms: Seq<ChessMove>, i: int)
    requires
        0 <= i,
    ensures
        spec_replay(ms, i).clock <= i,
    decreases i,
{
    if i > 0 {
        lemma_replay_clock(ms, i - 1);
    }
}

/// Rebuilds a game by replaying a persisted move list from the
/// standard starting position.
#[verifier::loop_isolation(false)]
pub fn replay_game(moves: &Vec<ChessMove>) -> (g: Game)
    requires
        moves@.len() < u32::MAX,
    ensures
        g@.wf(),
        g@ == spec_replay(moves@, moves@.len() as int),
{
    let mut game = Game::new();
    let mut i: usize = 0;
    while i < moves.len()
        invariant
            i <= moves@.len(),
            game@.wf(),
            game@ == spec_replay(moves@, i as int),
            game@.clock <= i,
        decreases moves@.len() - i,
    {
        game.move_piece(moves[i].original, moves[i].new);
        i += 1;
    }
    game
}

/// How many of the given candidate sequences end on `end` — the count
/// of matches a submitted destination finds among the legal moves of
/// its origin.
pub open spec fn spec_match_count(cands: Seq<Seq<Step>>, end: Square, i: int) -> int
    decreases i,
{
    if i <= 0 {
        0
    } else {
        spec_match_count(cands, end, i - 1) + (if cands[i - 1][cands[i - 1].len() - 1].1 == end {
            1int
        } else {
            0int
        })
    }
}

/// Counts the candidate sequences whose final destination is `end`.
/// A submitted move is accepted exactly when the count is positive.
pub fn matching_candidates(cands: &Vec<Vec<Step>>, end: Square) -> (n: usize)
    requires
        forall|i: int| 0 <= i < cands@.len() ==> (#[trigger] cands@[i])@.len() > 0,
    ensures
        n == spec_match_count(
            cands@.map_values(|v: Vec<Step>| v@),
            end,
            cands@.len() as int,
        ),
        n <= cands@.len(),
{
    let ghost cs = cands@.map_values(|v: Vec<Step>| v@);
    let mut n: usize = 0;
    let mut i: usize = 0;
    while i < cands.len()
        invariant
            i <= cands@.len(),
            n <= i,
            n == spec_match_count(cs, end, i as int),
            cs == cands@.map_values(|v: Vec<Step>| v@),
            forall|k: int| 0 <= k < cands@.len() ==> (#[trigger] cands@[k])@.len() > 0,
        decreases cands@.len() - i,
    {
        let v = &cands[i];
        let last = v[v.len() - 1];
        if last.1.0 == end.0 && last.1.1 == end.1 {
            proof {
                assert(cs[i as int][cs[i as int].len() - 1].1 == end);
            }
            n += 1;
        } else {
            proof {
                assert(cs[i as int][cs[i as int].len() - 1].1 != end);
            }
        }
        i += 1;
    }
    n
}

/// The decimal digits of a number.
pub open spec fn spec_decimal(n: int) -> Seq<char>
    decreases n,
{
    if n < 10 {
        seq![((48 + n) as u8) as char]
    } else {
        spec_decimal(n / 10) + seq![((48 + n % 10) as u8) as char]
    }
}

/// The decimal digits of a number, as characters.
fn decimal_chars(n: u64) -> (r: Vec<char>)
    ensures
        r@ == spec_decimal(n as int),
    decreases n,
{
    if n < 10 {
        let mut r: Vec<char> = Vec::new();
        r.push((48 + n as u8) as char);
        proof {
            assert(r@ =~= spec_decimal(n as int));
        }
        r
    } else {
        let mut r = decimal_chars(n / 10);
        r.push((48 + (n % 10) as u8) as char);
        proof {
            assert(r@ =~= spec_decimal(n as int));
        }
        r
    }
}

/// The line describing one recorded move in a match summary.
pub open spec fn spec_move_line(m: ChessMove) -> Seq<char> {
    "Move made from ("@ + spec_decimal(m.original.0 as int) + ","@ + spec_decimal(
        m.original.1 as int,
    ) + ") to ("@ + spec_decimal(m.new.0 as int) + ","@ + spec_decimal(m.new.1 as int) + ")"@
}

/// One summary line per recorded move, in order.
pub fn match_lines(moves: &Vec<ChessMove>) -> (r: Vec<String>)
    ensures
        r@.len() == moves@.len(),
        forall|i: int| 0 <= i < moves@.len() ==> (#[trigger] r@[i])@ == spec_move_line(moves@[i]),
{
    let mut r: Vec<String> = Vec::new();
    let mut i: usize = 0;
    while i < moves.len()
        invariant
            i <= moves@.len(),
            r@.len() == i,
            forall|k: int| 0 <= k < i ==> (#[trigger] r@[k])@ == spec_move_line(moves@[k]),
        decreases moves@.len() - i,
    {
        let m = moves[i];
        let mut v: Vec<char> = Vec::new();
        push_str_chars(&mut v, "Move made from (");
        let mut d = decimal_chars(m.original.0 as u64);
        v.append(&mut d);
        push_str_chars(&mut v, ",");
        let mut d = decimal_chars(m.original.1 as u64);
        v.append(&mut d);
        push_str_chars(&mut v, ") to (");
        let mut d = decimal_chars(m.new.0 as u64);
        v.append(&mut d);
        push_str_chars(&mut v, ",");
        let mut d = decimal_chars(m.new.1 as u64);
        v.append(&mut d);
        push_str_chars(&mut v, ")");
        proof {
            assert(v@ =~= spec_move_line(moves@[i as int]));
        }
        r.push(chars_to_string(&v));
        i += 1;
    }
    r
}

/// Appends the characters of a string slice to a character list.
fn push_str_chars(v: &mut Vec<char>, s: &str)
    ensures
        final(v)@ == old(v)@ + s@,
{
    let n = s.unicode_len();
    let mut i: usize = 0;
    while i < n
        invariant
            n == s@.len(),
            i <= n,
            v@ == old(v)@ + s@.subrange(0, i as int),
        decreases n - i,
    {
        v.push(s.get_char(i));
        proof {
            assert(v@ =~= old(v)@ + s@.subrange(0, i as int + 1));
        }
        i += 1;
    }
    proof {
        assert(v@ =~= old(v)@ + s@);
    }
}

} // verus!
