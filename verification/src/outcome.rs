//! The outcome evaluator: classifying a game as won by checkmate,
//! drawn, stalemated or still in progress.

use vstd::prelude::*;
use crate::engine::{
    at, other_color, spec_by_color, spec_rep_count, sq_in_bounds, Color, Game, GameView, Kind,
    Piece, VictoryStatus,
};
use crate::moves::{lemma_scan_ranks_items, spec_has_king, spec_in_check, spec_valid_moves};

verus! {

/// The color has no legal move for any of its pieces.
pub open spec fn spec_no_moves(g: GameView, c: Color) -> bool {
    forall|k: int|
        0 <= k < spec_by_color(g.board, c).len() ==> spec_valid_moves(
            g.bstate(),
            (#[trigger] spec_by_color(g.board, c)[k]).0,
        ).len() == 0
}

/// What the move-based part of outcome evaluation says of one color: a
/// color with no legal moves loses by checkmate if its king is
/// attacked, concedes a stalemate if it was not the side that moved
/// last, and otherwise settles nothing.
pub open spec fn spec_color_outcome(g: GameView, c: Color) -> Option<(VictoryStatus, Color)> {
    if spec_no_moves(g, c) {
        if spec_in_check(g.bstate(), c) {
            Some((VictoryStatus::Checkmate, other_color(c)))
        } else if g.last_color != c {
            Some((VictoryStatus::Stalemate, other_color(c)))
        } else {
            None
        }
    } else {
        None
    }
}

/// The fivefold-repetition condition: at least five saved snapshots
/// equal the most recent one.
pub open spec fn spec_fivefold(g: GameView) -> bool {
    g.history.len() >= 5 && spec_rep_count(g.history, g.history.len() as int) >= 5
}

/// The whole outcome rule: a draw once the halfmove clock reaches 75
/// or the position has stood five times, else the move-based outcome
/// for Black, else for White, else nothing.
pub open spec fn spec_check_victory(g: GameView) -> Option<(VictoryStatus, Color)> {
    if g.clock >= 75 {
        Some((VictoryStatus::Draw, Color::White))
    } else if spec_fivefold(g) {
        Some((VictoryStatus::Draw, Color::White))
    } else if spec_color_outcome(g, Color::Black) is Some {
        spec_color_outcome(g, Color::Black)
    } else {
        spec_color_outcome(g, Color::White)
    }
}

impl Game {
    /// The move-based outcome for one color.
    #[verifier::loop_isolation(false)]
    fn color_outcome(&self, color: Color) -> (r: Option<(VictoryStatus, Color)>)
        requires
            self@.wf(),
            self@.ignore_check || self@.ignore_kings || spec_has_king(self@.board, color),
        ensures
            r == spec_color_outcome(self@, color),
    {
        let ghost g = self@;
        let pieces = self.by_color(color);
        proof {
            lemma_scan_ranks_items(self@.board, |p: Piece| p.color == color, 64);
        }
        let mut i: usize = 0;
        while i < pieces.len()
            invariant
                i <= pieces@.len(),
                forall|k: int|
                    0 <= k < i ==> spec_valid_moves(
                        g.bstate(),
                        (#[trigger] spec_by_color(g.board, color)[k]).0,
                    ).len() == 0,
            decreases pieces@.len() - i,
        {
            let mvs = self.valid_moves(pieces[i].0);
            if mvs.len() > 0 {
                proof {
                    assert(spec_valid_moves(g.bstate(), spec_by_color(g.board, color)[i as int].0)
                        .len() > 0);
                    assert(!spec_no_moves(g, color));
                }
                return None;
            }
            i += 1;
        }
        proof {
            assert(spec_no_moves(g, color));
        }
        let opposite: Color = if color == Color::White {
            Color::Black
        } else {
            Color::White
        };
        if self.in_check(color) {
            Some((VictoryStatus::Checkmate, opposite))
        } else if self.last_mover() != color {
            Some((VictoryStatus::Stalemate, opposite))
        } else {
            None
        }
    }

    /// Classifies the game: `Some` with a victory status and the
    /// winning color (White stands in for "nobody" on a draw), or
    /// `None` while the game continues.  A draw is declared once the
    /// halfmove clock reaches 75 or the position has stood five times;
    /// otherwise a side with no legal moves is checkmated if in check,
    /// or concedes a stalemate if the opponent moved last.
    pub fn check_victory(&self) -> (r: Option<(VictoryStatus, Color)>)
        requires
            self@.wf(),
            self@.ignore_check || self@.ignore_kings || (spec_has_king(self@.board, Color::White)
                && spec_has_king(self@.board, Color::Black)),
        ensures
            r == spec_check_victory(self@),
    {
        if self.clock_value() >= 75 {
            return Some((VictoryStatus::Draw, Color::White));
        }
        if self.history_len() >= 5 {
            if self.count_repetitions() >= 5 {
                return Some((VictoryStatus::Draw, Color::White));
            }
        }
        match self.color_outcome(Color::Black) {
            Some(v) => Some(v),
            None => self.color_outcome(Color::White),
        }
    }
}

/// The draw thresholds bind exactly: the clock at 75 or five standings
/// of one position draw the game, and below both thresholds no draw is
/// ever declared.
pub proof fn lemma_draw_thresholds(g: GameView)
    ensures
        g.clock >= 75 ==> spec_check_victory(g) == Some((VictoryStatus::Draw, Color::White)),
        spec_fivefold(g) ==> spec_check_victory(g) == Some((VictoryStatus::Draw, Color::White)),
        g.clock < 75 && !spec_fivefold(g) && spec_check_victory(g) is Some
            ==> spec_check_victory(g).unwrap().0 != VictoryStatus::Draw,
{
}

/// Checkmate: a color with no legal move whose king is attacked loses
/// to its opponent, provided no draw threshold has been reached and —
/// when that color is White — Black is not itself already out of
/// moves.
pub proof fn lemma_checkmate(g: GameView, c: Color)
    requires
        g.clock < 75,
        !spec_fivefold(g),
        spec_no_moves(g, c),
        spec_in_check(g.bstate(), c),
        c == Color::Black || spec_color_outcome(g, Color::Black) is None,
    ensures
        spec_check_victory(g) == Some((VictoryStatus::Checkmate, other_color(c))),
{
}

/// Stalemate: a color with no legal move whose king is not attacked,
/// and which did not move last, concedes a stalemate to its opponent,
/// under the same provisos as checkmate.
pub proof fn lemma_stalemate(g: GameView, c: Color)
    requires
        g.clock < 75,
        !spec_fivefold(g),
        spec_no_moves(g, c),
        !spec_in_check(g.bstate(), c),
        g.last_color != c,
        c == Color::Black || spec_color_outcome(g, Color::Black) is None,
    ensures
        spec_check_victory(g) == Some((VictoryStatus::Stalemate, other_color(c))),
{
}

} // verus!
