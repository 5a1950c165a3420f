//! The plain minimax value of a duel, and what a search within a window
//! may report of it.

use vstd::prelude::*;
use crate::moves::{advance_state, can_step, lemma_first_cell_index_is_first};
use crate::scoring::{duel_at, me_index, other_index, score_spec, MAX_DEPTH};
use crate::types::{
    has_snake, is_first_with_id, lemma_first_with_id_unique, possible_moves, snake_index,
    BattlesnakeView, Coordinate, Direction, GameStateView,
};

verus! {

/// The value of a position in which the snake to move has no step that ends on the board.
pub const NEUTRAL_SCORE: i64 = 0;

/// No score is further from zero than this.
pub const SCORE_BOUND: i64 = 2_000_000_000;

/// The snake whose ply it is: `you` when maximizing, the opponent when minimizing.
pub open spec fn turn_snake(g: GameStateView, is_maximizing: bool) -> BattlesnakeView {
    g.board.snakes[if is_maximizing {
        me_index(g)
    } else {
        other_index(g)
    }]
}

/// The steps open to the snake whose ply it is.
pub open spec fn children_spec(g: GameStateView, is_maximizing: bool) -> Seq<
    (Direction, Coordinate),
> {
    possible_moves(g.board, turn_snake(g, is_maximizing).body[0])
}

/// The snapshot after the snake whose ply it is has taken its `i`-th step.
pub open spec fn child_state(g: GameStateView, is_maximizing: bool, i: int) -> GameStateView {
    advance_state(g, children_spec(g, is_maximizing)[i].1, turn_snake(g, is_maximizing).id)
}

/// The plain value of the `j`-th step of the snake to move.
pub open spec fn child_value(g: GameStateView, depth: int, is_maximizing: bool, j: int) -> int {
    minimax_value(child_state(g, is_maximizing, j), depth + 1, !is_maximizing)
}

/// In a duel each snake is the first to carry its own identifier.
pub proof fn lemma_duel_turn(g: GameStateView, depth: int, is_maximizing: bool)
    requires
        duel_at(g, depth),
    ensures
        has_snake(g.board.snakes, turn_snake(g, is_maximizing).id),
        snake_index(g.board.snakes, turn_snake(g, is_maximizing).id) == (if is_maximizing {
            me_index(g)
        } else {
            other_index(g)
        }),
        can_step(g, turn_snake(g, is_maximizing).id),
        turn_snake(g, true).id == g.you.id,
{
    let i = if is_maximizing {
        me_index(g)
    } else {
        other_index(g)
    };
    assert(is_first_with_id(g.board.snakes, g.board.snakes[i].id, i));
    lemma_first_with_id_unique(g.board.snakes, g.board.snakes[i].id, i);
}

/// A step of either snake of a duel leaves a duel, one ply deeper.
pub proof fn lemma_step_keeps_duel(
    g: GameStateView,
    depth: int,
    is_maximizing: bool,
    coor: Coordinate,
)
    requires
        duel_at(g, depth),
    ensures
        duel_at(advance_state(g, coor, turn_snake(g, is_maximizing).id), depth + 1),
{
    lemma_duel_turn(g, depth, is_maximizing);
    let after = advance_state(g, coor, turn_snake(g, is_maximizing).id);
    if g.board.food.contains(coor) {
        lemma_first_cell_index_is_first(g.board.food, coor);
    }
    assert(after.board.snakes.len() == 2);
    assert(after.board.snakes[0].id == g.board.snakes[0].id);
    assert(after.board.snakes[1].id == g.board.snakes[1].id);
}

/// The value of `a` or `b` that the side to move prefers.
pub open spec fn better_of(is_maximizing: bool, a: int, b: int) -> int {
    if is_maximizing {
        if b > a {
            b
        } else {
            a
        }
    } else {
        if b < a {
            b
        } else {
            a
        }
    }
}

/// The plain minimax value of the duel `g` at ply `depth`: its score where
/// the line of play ends, [`NEUTRAL_SCORE`] where the snake to move has no
/// step, and else the best value among its steps, the greatest for `you`
/// and the least for the opponent.
pub open spec fn minimax_value(g: GameStateView, depth: int, is_maximizing: bool) -> int
    decreases MAX_DEPTH - depth, children_spec(g, is_maximizing).len() + 1,
{
    match score_spec(g, depth) {
        Some(v) => v,
        None => {
            let n = children_spec(g, is_maximizing).len() as int;
            if depth >= MAX_DEPTH || n == 0 {
                NEUTRAL_SCORE as int
            } else {
                best_of_children(g, depth, is_maximizing, n)
            }
        },
    }
}

/// The best value among the first `k` steps of the snake to move.
pub open spec fn best_of_children(
    g: GameStateView,
    depth: int,
    is_maximizing: bool,
    k: int,
) -> int
    decreases MAX_DEPTH - depth, k,
{
    if depth >= MAX_DEPTH || k <= 0 || k > children_spec(g, is_maximizing).len() {
        NEUTRAL_SCORE as int
    } else {
        let v = minimax_value(child_state(g, is_maximizing, k - 1), depth + 1, !is_maximizing);
        if k == 1 {
            v
        } else {
            better_of(is_maximizing, best_of_children(g, depth, is_maximizing, k - 1), v)
        }
    }
}

/// The position of the first among the first `k` steps that has the best value.
pub open spec fn best_child_upto(
    g: GameStateView,
    depth: int,
    is_maximizing: bool,
    k: int,
) -> int
    decreases k,
{
    if k <= 1 {
        0
    } else {
        let v = minimax_value(child_state(g, is_maximizing, k - 1), depth + 1, !is_maximizing);
        let rest = best_of_children(g, depth, is_maximizing, k - 1);
        if better_of(is_maximizing, rest, v) != rest {
            k - 1
        } else {
            best_child_upto(g, depth, is_maximizing, k - 1)
        }
    }
}

/// More steps never make the best value worse for the side to move.
pub proof fn lemma_best_of_children_monotone(
    g: GameStateView,
    depth: int,
    is_maximizing: bool,
    i: int,
    k: int,
)
    requires
        depth < MAX_DEPTH,
        1 <= i <= k <= children_spec(g, is_maximizing).len(),
    ensures
        is_maximizing ==> best_of_children(g, depth, true, i) <= best_of_children(
            g,
            depth,
            true,
            k,
        ),
        !is_maximizing ==> best_of_children(g, depth, false, i) >= best_of_children(
            g,
            depth,
            false,
            k,
        ),
    decreases k - i,
{
    if i < k {
        lemma_best_of_children_monotone(g, depth, is_maximizing, i, k - 1);
    }
}

/// What a search within the window `(alpha, beta)` may report of a position
/// whose plain value is `exact`: that value where it lies inside the window,
/// and else a bound on the same side of the window.
pub open spec fn within_window(exact: int, alpha: int, beta: int, found: int) -> bool {
    &&& alpha < exact < beta ==> found == exact
    &&& exact <= alpha ==> found <= alpha
    &&& exact >= beta ==> found >= beta
}

/// The first best among the first `k` options: the greatest score when
/// maximizing, the least when minimizing. Without options it is
/// [`NEUTRAL_SCORE`] with the direction up.
pub open spec fn best_option_upto(
    options: Seq<(i64, Option<Direction>)>,
    is_maximizing: bool,
    k: int,
) -> (i64, Option<Direction>)
    decreases k,
{
    if k <= 0 {
        (NEUTRAL_SCORE, Some(Direction::UP))
    } else if k == 1 {
        options[0]
    } else {
        let rest = best_option_upto(options, is_maximizing, k - 1);
        let o = options[k - 1];
        if better_of(is_maximizing, rest.0 as int, o.0 as int) != rest.0 {
            o
        } else {
            rest
        }
    }
}

/// The first best of all `options`.
pub open spec fn best_option(options: Seq<(i64, Option<Direction>)>, is_maximizing: bool) -> (
    i64,
    Option<Direction>,
) {
    best_option_upto(options, is_maximizing, options.len() as int)
}

/// The first best after one more option.
pub open spec fn best_with(
    is_maximizing: bool,
    best: (i64, Option<Direction>),
    value: i64,
    dir: Direction,
) -> (i64, Option<Direction>) {
    if (is_maximizing && value > best.0) || (!is_maximizing && value < best.0) {
        (value, Some(dir))
    } else {
        best
    }
}

/// The window in which the `j`-th option was searched: the window of the
/// position, narrowed by the best of the options before it.
pub open spec fn window_before(
    options: Seq<(i64, Option<Direction>)>,
    is_maximizing: bool,
    alpha: int,
    beta: int,
    j: int,
) -> (int, int) {
    if j <= 0 {
        (alpha, beta)
    } else {
        let b = best_option_upto(options, is_maximizing, j).0 as int;
        if is_maximizing {
            (better_of(true, alpha, b), beta)
        } else {
            (alpha, better_of(false, beta, b))
        }
    }
}

/// The best of the first `k` options depends on those options alone.
pub proof fn lemma_best_option_prefix(
    a: Seq<(i64, Option<Direction>)>,
    b: Seq<(i64, Option<Direction>)>,
    is_maximizing: bool,
    k: int,
)
    requires
        k <= a.len(),
        k <= b.len(),
        forall|m: int| 0 <= m < k ==> a[m] == b[m],
    ensures
        best_option_upto(a, is_maximizing, k) == best_option_upto(b, is_maximizing, k),
    decreases k,
{
    if k > 1 {
        lemma_best_option_prefix(a, b, is_maximizing, k - 1);
    }
}

/// The best of the first `k` of `options` is one of them.
pub proof fn lemma_best_option_is_one(
    options: Seq<(i64, Option<Direction>)>,
    is_maximizing: bool,
    k: int,
)
    requires
        1 <= k <= options.len(),
    ensures
        exists|j: int|
            0 <= j < k && #[trigger] options[j] == best_option_upto(options, is_maximizing, k),
    decreases k,
{
    if k > 1 {
        lemma_best_option_is_one(options, is_maximizing, k - 1);
        let j = choose|j: int|
            0 <= j < k - 1 && #[trigger] options[j] == best_option_upto(
                options,
                is_maximizing,
                k - 1,
            );
        let b = best_option_upto(options, is_maximizing, k);
        assert(b == options[j] || b == options[k - 1]);
    } else {
        assert(options[0] == best_option_upto(options, is_maximizing, k));
    }
}

/// What holds of the value and direction `best` that a search of `g` within
/// `(alpha, beta)` reports: the value is within [`SCORE_BOUND`] and stands to
/// the plain minimax value as [`within_window`] says; and where play goes on,
/// the snake to move has a step, and the plain value lies inside the window,
/// the direction is that of the first step with the best plain value. Where
/// the line of play ends at `g` there is no direction, and where the snake
/// to move has no step the direction is up.
pub open spec fn search_result_ok(
    g: GameStateView,
    depth: int,
    is_maximizing: bool,
    alpha: int,
    beta: int,
    best: (i64, Option<Direction>),
) -> bool {
    let v = minimax_value(g, depth, is_maximizing);
    let n = children_spec(g, is_maximizing).len() as int;
    &&& -SCORE_BOUND <= best.0 <= SCORE_BOUND
    &&& within_window(v, alpha, beta, best.0 as int)
    &&& score_spec(g, depth).is_some() ==> best.1.is_none()
    &&& score_spec(g, depth).is_none() && n == 0 ==> best.1 == Some(Direction::UP)
    &&& score_spec(g, depth).is_none() && n > 0 && alpha < v < beta ==> best.1 == Some(
        children_spec(g, is_maximizing)[best_child_upto(g, depth, is_maximizing, n)].0,
    )
}

/// What holds of the `j`-th of the options that a search of `g` within
/// `(alpha, beta)` lists where play goes on: it is the `j`-th step of the
/// snake to move, with its direction; it was searched in the window that
/// the options before it had left open; and its score stands to the plain
/// value of that step as [`within_window`] says for that window.
pub open spec fn option_ok(
    g: GameStateView,
    depth: int,
    is_maximizing: bool,
    alpha: int,
    beta: int,
    options: Seq<(i64, Option<Direction>)>,
    j: int,
) -> bool {
    let w = window_before(options, is_maximizing, alpha, beta, j);
    &&& w.0 < w.1
    &&& options[j].1 == Some(children_spec(g, is_maximizing)[j].0)
    &&& -SCORE_BOUND <= options[j].0 <= SCORE_BOUND
    &&& within_window(child_value(g, depth, is_maximizing, j), w.0, w.1, options[j].0 as int)
}

/// What holds of the options that a search of `g` within `(alpha, beta)`
/// lists. Where the line of play ends at `g`, the one option is its score,
/// without a direction. Otherwise the options are the steps of the snake to
/// move, in order, up to the step after which the window closed, and
/// [`option_ok`] holds of each.
pub open spec fn options_ok(
    g: GameStateView,
    depth: int,
    is_maximizing: bool,
    alpha: int,
    beta: int,
    options: Seq<(i64, Option<Direction>)>,
) -> bool {
    let kids = children_spec(g, is_maximizing);
    match score_spec(g, depth) {
        Some(s) => options == seq![(s as i64, None::<Direction>)],
        None => {
            &&& options.len() <= kids.len()
            &&& kids.len() > 0 ==> options.len() > 0
            &&& options.len() < kids.len() ==> {
                let w = window_before(options, is_maximizing, alpha, beta, options.len() as int);
                w.1 <= w.0
            }
            &&& forall|j: int|
                0 <= j < options.len() ==> #[trigger] option_ok(
                    g,
                    depth,
                    is_maximizing,
                    alpha,
                    beta,
                    options,
                    j,
                )
        },
    }
}

/// What holds while the steps of the snake to move are searched one after
/// another: `options` are those searched so far, `best` is the first best
/// of them, `(lo, hi)` is the window that they have left, and `cut` tells
/// whether that window has closed.
pub open spec fn scan_ok(
    g: GameStateView,
    depth: int,
    is_maximizing: bool,
    alpha: int,
    beta: int,
    options: Seq<(i64, Option<Direction>)>,
    best: (i64, Option<Direction>),
    lo: int,
    hi: int,
    cut: bool,
) -> bool {
    let kids = children_spec(g, is_maximizing);
    let i = options.len() as int;
    &&& i <= kids.len()
    &&& alpha < beta
    &&& (lo, hi) == window_before(options, is_maximizing, alpha, beta, i)
    &&& cut <==> hi <= lo
    &&& i == 0 ==> !cut && best.0 == (if is_maximizing {
        i64::MIN
    } else {
        i64::MAX
    })
    &&& i >= 1 ==> {
        &&& best == best_option_upto(options, is_maximizing, i)
        &&& -SCORE_BOUND <= best.0 <= SCORE_BOUND
        &&& within_window(best_of_children(g, depth, is_maximizing, i), alpha, beta, best.0 as int)
        &&& alpha < best_of_children(g, depth, is_maximizing, i) < beta ==> best.1 == Some(
            kids[best_child_upto(g, depth, is_maximizing, i)].0,
        )
    }
    &&& forall|j: int|
        0 <= j < i ==> #[trigger] option_ok(g, depth, is_maximizing, alpha, beta, options, j)
}

/// The search of one more step keeps [`scan_ok`].
#[verifier::rlimit(50)]
pub proof fn lemma_scan_step(
    g: GameStateView,
    depth: int,
    is_maximizing: bool,
    alpha: int,
    beta: int,
    options: Seq<(i64, Option<Direction>)>,
    best: (i64, Option<Direction>),
    lo: int,
    hi: int,
    value: i64,
    dir: Direction,
)
    requires
        depth < MAX_DEPTH,
        scan_ok(g, depth, is_maximizing, alpha, beta, options, best, lo, hi, false),
        options.len() < children_spec(g, is_maximizing).len(),
        dir == children_spec(g, is_maximizing)[options.len() as int].0,
        -SCORE_BOUND <= value <= SCORE_BOUND,
        within_window(
            child_value(g, depth, is_maximizing, options.len() as int),
            lo,
            hi,
            value as int,
        ),
    ensures
        ({
            let best2 = best_with(is_maximizing, best, value, dir);
            let lo2 = if is_maximizing {
                better_of(true, lo, best2.0 as int)
            } else {
                lo
            };
            let hi2 = if is_maximizing {
                hi
            } else {
                better_of(false, hi, best2.0 as int)
            };
            scan_ok(
                g,
                depth,
                is_maximizing,
                alpha,
                beta,
                options.push((value, Some(dir))),
                best2,
                lo2,
                hi2,
                hi2 <= lo2,
            )
        }),
{
    let i = options.len() as int;
    let longer = options.push((value, Some(dir)));
    let best2 = best_with(is_maximizing, best, value, dir);
    lemma_best_option_prefix(options, longer, is_maximizing, i);
    assert(longer[i] == (value, Some(dir)));
    assert(best2 == best_option_upto(longer, is_maximizing, i + 1));
    assert forall|j: int| 0 <= j <= i implies window_before(
        longer,
        is_maximizing,
        alpha,
        beta,
        j,
    ) == window_before(options, is_maximizing, alpha, beta, j) by {
        lemma_best_option_prefix(options, longer, is_maximizing, j);
    }
    assert forall|j: int| 0 <= j < i + 1 implies #[trigger] option_ok(
        g,
        depth,
        is_maximizing,
        alpha,
        beta,
        longer,
        j,
    ) by {
        if j < i {
            assert(option_ok(g, depth, is_maximizing, alpha, beta, options, j));
            assert(longer[j] == options[j]);
        }
    }
    let v = child_value(g, depth, is_maximizing, i);
    if i >= 1 {
        assert(best_of_children(g, depth, is_maximizing, i + 1) == better_of(
            is_maximizing,
            best_of_children(g, depth, is_maximizing, i),
            v,
        ));
    } else {
        assert(best_of_children(g, depth, is_maximizing, 1) == v);
        assert(best_child_upto(g, depth, is_maximizing, 1) == 0);
    }
}

/// When the steps have all been searched, or the window has closed, the
/// options and the first best of them are as a search is to report them.
pub proof fn lemma_scan_done(
    g: GameStateView,
    depth: int,
    is_maximizing: bool,
    alpha: int,
    beta: int,
    options: Seq<(i64, Option<Direction>)>,
    best: (i64, Option<Direction>),
    lo: int,
    hi: int,
    cut: bool,
)
    requires
        depth < MAX_DEPTH,
        score_spec(g, depth).is_none(),
        scan_ok(g, depth, is_maximizing, alpha, beta, options, best, lo, hi, cut),
        cut || options.len() == children_spec(g, is_maximizing).len(),
    ensures
        options_ok(g, depth, is_maximizing, alpha, beta, options),
        search_result_ok(g, depth, is_maximizing, alpha, beta, best_option(options, is_maximizing)),
{
    let i = options.len() as int;
    let n = children_spec(g, is_maximizing).len() as int;
    if 1 <= i && i < n {
        lemma_best_of_children_monotone(g, depth, is_maximizing, i, n);
    }
}

/// A search with the widest window finds the plain minimax value: pruning
/// changes how much of the tree is looked at, not the value of its root.
pub proof fn full_window_is_exact(
    g: GameStateView,
    depth: int,
    is_maximizing: bool,
    best: (i64, Option<Direction>),
)
    requires
        search_result_ok(g, depth, is_maximizing, i64::MIN as int, i64::MAX as int, best),
    ensures
        best.0 == minimax_value(g, depth, is_maximizing),
{
}

/// With the widest window nothing is pruned at the root: where play goes on,
/// every step of the snake to move is among the options.
pub proof fn full_window_lists_every_step(
    g: GameStateView,
    depth: int,
    is_maximizing: bool,
    options: Seq<(i64, Option<Direction>)>,
)
    requires
        options_ok(g, depth, is_maximizing, i64::MIN as int, i64::MAX as int, options),
        score_spec(g, depth).is_none(),
    ensures
        options.len() == children_spec(g, is_maximizing).len(),
{
    let n = options.len() as int;
    if n < children_spec(g, is_maximizing).len() {
        lemma_best_option_is_one(options, is_maximizing, n);
        let j = choose|j: int|
            0 <= j < n && #[trigger] options[j] == best_option_upto(options, is_maximizing, n);
        assert(option_ok(g, depth, is_maximizing, i64::MIN as int, i64::MAX as int, options, j));
    }
}

/// The direction that the search settles on in the duel `g`: that of the
/// first step of `you` with the best plain minimax value, and up where the
/// game is over or no step ends on the board.
pub open spec fn best_direction(g: GameStateView) -> Direction {
    let n = children_spec(g, true).len() as int;
    if score_spec(g, 0).is_some() || n == 0 {
        Direction::UP
    } else {
        children_spec(g, true)[best_child_upto(g, 0, true, n)].0
    }
}

} // verus!
