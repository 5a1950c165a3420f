//! When a duel is decided, and what it is worth.

use vstd::prelude::*;
use crate::types::{on_board, Board, BoardView, Coordinate, GameState, GameStateView};

verus! {

/// The number of plies after which a line of play is estimated instead of played on.
pub const MAX_DEPTH: i64 = 14;

/// The score of a lost game, before the ply at which it is lost is added.
pub const SCORE_LOSE: i64 = -200;

/// The score of a won game, before the ply at which it is won is taken off.
pub const SCORE_WIN: i64 = 200;

/// At the horizon a snake plays for survival unless it is at least this much longer than the other.
pub const LENGTH_MARGIN: i64 = 4;

/// The longest body a searched snapshot may start with.
pub const MAX_BODY_LEN: usize = 1_000_000_000;

/// True when `g` is a duel as it can stand `depth` plies into a search: two
/// snakes with different identifiers, one of them `you`, each with a body,
/// and neither longer than [`MAX_BODY_LEN`] plus one cell for every ply played.
pub open spec fn duel_at(g: GameStateView, depth: int) -> bool {
    &&& g.board.snakes.len() == 2
    &&& g.board.snakes[0].id != g.board.snakes[1].id
    &&& (g.you.id == g.board.snakes[0].id || g.you.id == g.board.snakes[1].id)
    &&& 0 < g.board.snakes[0].body.len() <= MAX_BODY_LEN + depth
    &&& 0 < g.board.snakes[1].body.len() <= MAX_BODY_LEN + depth
    &&& g.board.food.len() <= usize::MAX
}

/// The position of `you` among the two snakes of a duel.
pub open spec fn me_index(g: GameStateView) -> int {
    if g.board.snakes[0].id == g.you.id {
        0
    } else {
        1
    }
}

/// The position of the opponent among the two snakes of a duel.
pub open spec fn other_index(g: GameStateView) -> int {
    1 - me_index(g)
}

/// True when some cell of `body` lies off the board.
pub open spec fn leaves_board(board: BoardView, body: Seq<Coordinate>) -> bool {
    exists|i: int| 0 <= i < body.len() && !on_board(board, #[trigger] body[i])
}

/// True when a cell of `a` is also a cell of `b`. Two heads on one cell do
/// not count: that meeting is settled by length.
pub open spec fn overlaps(a: Seq<Coordinate>, b: Seq<Coordinate>) -> bool {
    exists|i: int, j: int|
        0 <= i < a.len() && 0 <= j < b.len() && #[trigger] a[i] == #[trigger] b[j] && !(i == 0 && j
            == 0)
}

/// True when the head of `body` lies on one of its other segments.
pub open spec fn hits_itself(body: Seq<Coordinate>) -> bool {
    exists|i: int| 1 <= i < body.len() && #[trigger] body[i] == body[0]
}

/// The estimate at the horizon for a snake of `my_len` cells with `my_health`
/// against one of `other_len` cells: its length lead when that lead is at
/// least [`LENGTH_MARGIN`], and else a survival value that grows with health
/// and length.
pub open spec fn horizon_estimate(my_len: int, my_health: int, other_len: int) -> int {
    if other_len + LENGTH_MARGIN > my_len {
        -100 + my_health / 10 + my_len
    } else {
        my_len - other_len
    }
}

/// The value of the duel `g` reached after `depth` plies, or `None` where
/// play goes on. In this order:
///
/// 1. `you` are off the board, or on a cell that the opponent holds: lost.
/// 2. `you` ran into yourself, after at least one ply: lost.
/// 3. the same two for the opponent: won.
/// 4. between the two snakes' moves of one round: play goes on.
/// 5. both heads on one cell: won with the greater `length`, lost otherwise.
/// 6. at [`MAX_DEPTH`]: [`horizon_estimate`].
///
/// A loss is worth `SCORE_LOSE + depth` and a win `SCORE_WIN - depth`, so
/// that a late loss is better than an early one and an early win better
/// than a late one.
pub open spec fn score_spec(g: GameStateView, depth: int) -> Option<int> {
    let me = g.board.snakes[me_index(g)];
    let other = g.board.snakes[other_index(g)];
    if leaves_board(g.board, me.body) || overlaps(me.body, other.body) {
        Some(SCORE_LOSE + depth)
    } else if hits_itself(me.body) && depth != 0 {
        Some(SCORE_LOSE + depth)
    } else if leaves_board(g.board, other.body) || overlaps(other.body, me.body) {
        Some(SCORE_WIN - depth)
    } else if hits_itself(other.body) && depth != 0 {
        Some(SCORE_WIN - depth)
    } else if depth % 2 != 0 {
        None
    } else if me.body[0] == other.body[0] {
        if me.length > other.length {
            Some(SCORE_WIN - depth)
        } else {
            Some(SCORE_LOSE + depth)
        }
    } else if depth == MAX_DEPTH {
        Some(horizon_estimate(me.body.len() as int, me.health as int, other.body.len() as int))
    } else {
        None
    }
}

/// Tells whether some cell of `body` lies off `board`.
pub fn body_leaves_board(board: &Board, body: &Vec<Coordinate>) -> (b: bool)
    ensures
        b == leaves_board(board@, body@),
{
    let mut i: usize = 0;
    while i < body.len()
        invariant
            i <= body.len(),
            forall|k: int| 0 <= k < i ==> on_board(board@, #[trigger] body@[k]),
        decreases body.len() - i,
    {
        if !body[i].valid(board) {
            return true;
        }
        i += 1;
    }
    false
}

/// Tells whether a cell of `a` is also a cell of `b`, two heads on one cell aside.
pub fn bodies_overlap(a: &Vec<Coordinate>, b: &Vec<Coordinate>) -> (hit: bool)
    ensures
        hit == overlaps(a@, b@),
{
    let mut i: usize = 0;
    while i < a.len()
        invariant
            i <= a.len(),
            forall|p: int, q: int|
                0 <= p < i && 0 <= q < b.len() && !(p == 0 && q == 0) ==> #[trigger] a@[p]
                    != #[trigger] b@[q],
        decreases a.len() - i,
    {
        let mut j: usize = 0;
        while j < b.len()
            invariant
                i < a.len(),
                j <= b.len(),
                forall|p: int, q: int|
                    0 <= p < i && 0 <= q < b.len() && !(p == 0 && q == 0) ==> #[trigger] a@[p]
                        != #[trigger] b@[q],
                forall|q: int|
                    0 <= q < j && !(i == 0 && q == 0) ==> a@[i as int] != #[trigger] b@[q],
            decreases b.len() - j,
        {
            if !(i == 0 && j == 0) && a[i] == b[j] {
                return true;
            }
            j += 1;
        }
        i += 1;
    }
    false
}

/// Tells whether the head of `body` lies on one of its other segments.
pub fn body_hits_itself(body: &Vec<Coordinate>) -> (hit: bool)
    ensures
        hit == hits_itself(body@),
{
    let mut i: usize = 1;
    while i < body.len()
        invariant
            1 <= i,
            forall|k: int| 1 <= k < i && k < body.len() ==> #[trigger] body@[k] != body@[0],
        decreases body.len() - i,
    {
        if body[i] == body[0] {
            return true;
        }
        i += 1;
    }
    false
}

/// Scores the duel `node` reached after `depth` plies: `Some` with the value
/// where the line of play ends there, `None` where the search goes on.
pub fn score(node: &GameState, depth: i64) -> (r: Option<i64>)
    requires
        0 <= depth,
        duel_at(node@, depth as int),
    ensures
        match r {
            Some(v) => score_spec(node@, depth as int) == Some(v as int),
            None => score_spec(node@, depth as int).is_none(),
        },
{
    let me_at: usize = if node.board.snakes[0].id == node.you.id {
        0
    } else {
        1
    };
    let me = &node.board.snakes[me_at];
    let not_me = &node.board.snakes[1 - me_at];
    proof {
        assert(node@.board.snakes[me_index(node@)] == me@);
        assert(node@.board.snakes[other_index(node@)] == not_me@);
    }
    if body_leaves_board(&node.board, &me.body) || bodies_overlap(&me.body, &not_me.body) {
        return Some(SCORE_LOSE + depth);
    }
    if body_hits_itself(&me.body) && depth != 0 {
        return Some(SCORE_LOSE + depth);
    }
    if body_leaves_board(&node.board, &not_me.body) || bodies_overlap(&not_me.body, &me.body) {
        return Some(SCORE_WIN - depth);
    }
    if body_hits_itself(&not_me.body) && depth != 0 {
        return Some(SCORE_WIN - depth);
    }
    if depth % 2 != 0 {
        return None;
    }
    if me.body[0] == not_me.body[0] {
        if me.length > not_me.length {
            return Some(SCORE_WIN - depth);
        } else {
            return Some(SCORE_LOSE + depth);
        }
    }
    if depth == MAX_DEPTH {
        let me_length: i64 = me.body.len() as i64;
        let other_length: i64 = not_me.body.len() as i64;
        let me_health: i64 = me.health as i64;
        if other_length + LENGTH_MARGIN > me_length {
            return Some(-100 + (me_health / 10) + me_length);
        }
        return Some(me_length - other_length);
    }
    None
}

} // verus!
