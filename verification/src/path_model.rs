//! Walks over the board and what they cost: the model that the
//! shortest-path search is stated against.

use vstd::prelude::*;
use crate::types::{
    move_if_within, moved, on_board, possible_moves, BoardView, Coordinate, Direction,
};

verus! {

/// The cost of leaving an ordinary cell.
pub const NEIGHBOR_DISTANCE: i64 = 1;

/// What leaving a hazard cell costs on top of [`NEIGHBOR_DISTANCE`].
pub const HAZARD_PENALTY: i64 = 1;

/// The estimate used where there is no target to estimate the way to.
pub const HEURISTIC_MAX: i64 = 500;

/// No known cost of a search that [`search_fits`] allows is greater than this.
pub const COST_LIMIT: i64 = 0x3fff_ffff_ffff_ffff;

/// The absolute value of `i`.
pub open spec fn abs_diff(i: int) -> int {
    if i < 0 {
        -i
    } else {
        i
    }
}

/// The Manhattan distance between `a` and `b`.
pub open spec fn dist_spec(a: Coordinate, b: Coordinate) -> int {
    abs_diff(a.x - b.x) + abs_diff(a.y - b.y)
}

/// True when `m` is the least distance from `c` to a cell of `targets`.
pub open spec fn is_least_distance(c: Coordinate, targets: Seq<Coordinate>, m: int) -> bool {
    &&& exists|i: int| 0 <= i < targets.len() && m == dist_spec(#[trigger] targets[i], c)
    &&& forall|i: int| 0 <= i < targets.len() ==> m <= dist_spec(#[trigger] targets[i], c)
}

/// The least Manhattan distance from `c` to one of the first `k` of
/// `targets`, and [`HEURISTIC_MAX`] where `k` is zero.
pub open spec fn least_distance_upto(c: Coordinate, targets: Seq<Coordinate>, k: int) -> int
    decreases k,
{
    if k <= 0 {
        HEURISTIC_MAX as int
    } else if k == 1 {
        dist_spec(targets[0], c)
    } else {
        let rest = least_distance_upto(c, targets, k - 1);
        let d = dist_spec(targets[k - 1], c);
        if d < rest {
            d
        } else {
            rest
        }
    }
}

/// The estimate of the way from `c` to the nearest of `targets`: the least
/// Manhattan distance to one of them.
pub open spec fn heuristic_spec(c: Coordinate, targets: Seq<Coordinate>) -> int {
    least_distance_upto(c, targets, targets.len() as int)
}

/// The least distance to the first `k` targets is the distance to one of
/// them, and no greater than the distance to any of them.
pub proof fn lemma_least_distance_upto(c: Coordinate, targets: Seq<Coordinate>, k: int)
    requires
        1 <= k <= targets.len(),
    ensures
        is_least_distance(c, targets.take(k), least_distance_upto(c, targets, k)),
    decreases k,
{
    let m = least_distance_upto(c, targets, k);
    let t = targets.take(k);
    if k == 1 {
        assert(m == dist_spec(t[0], c));
    } else {
        lemma_least_distance_upto(c, targets, k - 1);
        let rest = least_distance_upto(c, targets, k - 1);
        let tt = targets.take(k - 1);
        let i0 = choose|i: int| 0 <= i < tt.len() && rest == dist_spec(#[trigger] tt[i], c);
        assert(tt[i0] == t[i0]);
        assert(t[k - 1] == targets[k - 1]);
        assert(m == dist_spec(t[i0], c) || m == dist_spec(t[k - 1], c));
        assert forall|i: int| 0 <= i < t.len() implies m <= dist_spec(#[trigger] t[i], c) by {
            if i < k - 1 {
                assert(tt[i] == t[i]);
            }
        }
    }
}

/// With a target to go to, the estimate is the least distance to a target.
pub proof fn lemma_heuristic_is_least(c: Coordinate, targets: Seq<Coordinate>)
    requires
        targets.len() > 0,
    ensures
        is_least_distance(c, targets, heuristic_spec(c, targets)),
{
    lemma_least_distance_upto(c, targets, targets.len() as int);
    assert(targets.take(targets.len() as int) =~= targets);
}

/// One step changes the estimate by one at most.
pub proof fn lemma_heuristic_step(a: Coordinate, b: Coordinate, targets: Seq<Coordinate>)
    requires
        adjacent(a, b),
        targets.len() > 0,
    ensures
        heuristic_spec(a, targets) <= heuristic_spec(b, targets) + 1,
{
    lemma_heuristic_is_least(a, targets);
    lemma_heuristic_is_least(b, targets);
    let hb = heuristic_spec(b, targets);
    let i = choose|i: int| 0 <= i < targets.len() && hb == dist_spec(#[trigger] targets[i], b);
    assert(heuristic_spec(a, targets) <= dist_spec(targets[i], a));
}

/// On a target the estimate is zero, and nowhere is it negative.
pub proof fn lemma_heuristic_at_target(c: Coordinate, targets: Seq<Coordinate>)
    requires
        targets.len() > 0,
    ensures
        heuristic_spec(c, targets) >= 0,
        targets.contains(c) ==> heuristic_spec(c, targets) == 0,
        heuristic_spec(c, targets) <= 0x2_0000_0000,
{
    lemma_heuristic_is_least(c, targets);
    if targets.contains(c) {
        let i = choose|i: int| 0 <= i < targets.len() && targets[i] == c;
        assert(heuristic_spec(c, targets) <= dist_spec(targets[i], c));
    }
}

/// True when `a` and `b` are one step apart.
pub open spec fn adjacent(a: Coordinate, b: Coordinate) -> bool {
    dist_spec(a, b) == 1
}

/// True when a segment of some snake lies on `c`.
pub open spec fn occupied(board: BoardView, c: Coordinate) -> bool {
    exists|i: int, j: int|
        0 <= i < board.snakes.len() && 0 <= j < board.snakes[i].body.len()
            && #[trigger] board.snakes[i].body[j] == c
}

/// True when the search may step onto `c`: a cell of the board that is a
/// target or that no snake lies on.
pub open spec fn can_enter(board: BoardView, targets: Seq<Coordinate>, c: Coordinate) -> bool {
    on_board(board, c) && (targets.contains(c) || !occupied(board, c))
}

/// True when the search may step from `from` to `to`.
pub open spec fn step_allowed(
    board: BoardView,
    targets: Seq<Coordinate>,
    from: Coordinate,
    to: Coordinate,
) -> bool {
    adjacent(from, to) && can_enter(board, targets, to)
}

/// What it costs to leave `c`: one more than usual on a hazard cell, and
/// else `food_penalty` more than usual on a food cell.
pub open spec fn step_cost(board: BoardView, food_penalty: int, c: Coordinate) -> int {
    if board.hazards.contains(c) {
        HAZARD_PENALTY + NEIGHBOR_DISTANCE
    } else if board.food.contains(c) {
        NEIGHBOR_DISTANCE + food_penalty
    } else {
        NEIGHBOR_DISTANCE as int
    }
}

/// With a penalty that is not negative, leaving a cell costs at least one
/// and at most two more than the penalty.
pub proof fn lemma_step_cost_bounds(board: BoardView, food_penalty: int, c: Coordinate)
    requires
        0 <= food_penalty,
    ensures
        1 <= step_cost(board, food_penalty, c) <= food_penalty + 2,
{
}

/// True when `p` is a walk of the search: at least one cell, and every step allowed.
pub open spec fn is_path(board: BoardView, targets: Seq<Coordinate>, p: Seq<Coordinate>) -> bool {
    &&& p.len() >= 1
    &&& forall|i: int|
        0 <= i < p.len() - 1 ==> step_allowed(board, targets, p[i], #[trigger] p[i + 1])
}

/// The cost of the walk `p`: the costs of leaving each of its cells but the last.
pub open spec fn path_cost(board: BoardView, food_penalty: int, p: Seq<Coordinate>) -> int
    decreases p.len(),
{
    if p.len() <= 1 {
        0
    } else {
        path_cost(board, food_penalty, p.drop_last()) + step_cost(
            board,
            food_penalty,
            p[p.len() - 2],
        )
    }
}

/// True when `p` is a walk from `from` to `to`.
pub open spec fn is_route(
    board: BoardView,
    targets: Seq<Coordinate>,
    from: Coordinate,
    to: Coordinate,
    p: Seq<Coordinate>,
) -> bool {
    is_path(board, targets, p) && p[0] == from && p.last() == to
}

/// True when `p` is a walk from `start` to one of `targets`.
pub open spec fn leads_to_target(
    board: BoardView,
    targets: Seq<Coordinate>,
    start: Coordinate,
    p: Seq<Coordinate>,
) -> bool {
    is_path(board, targets, p) && p[0] == start && targets.contains(p.last())
}

/// True when some walk leads from `start` to one of `targets`.
pub open spec fn reachable(board: BoardView, targets: Seq<Coordinate>, start: Coordinate) -> bool {
    exists|p: Seq<Coordinate>| leads_to_target(board, targets, start, p)
}

/// True when no walk from `start` to one of `targets` costs less than `cost`.
pub open spec fn none_cheaper(
    board: BoardView,
    targets: Seq<Coordinate>,
    food_penalty: int,
    start: Coordinate,
    cost: int,
) -> bool {
    forall|p: Seq<Coordinate>| #[trigger]
        leads_to_target(board, targets, start, p) ==> cost <= path_cost(board, food_penalty, p)
}

/// True when `p` is a cheapest walk from `start` to one of `targets`.
pub open spec fn is_shortest_path(
    board: BoardView,
    targets: Seq<Coordinate>,
    food_penalty: int,
    start: Coordinate,
    p: Seq<Coordinate>,
) -> bool {
    &&& leads_to_target(board, targets, start, p)
    &&& none_cheaper(board, targets, food_penalty, start, path_cost(board, food_penalty, p))
}

/// True when `distance` is the cost of a cheapest walk from `start` to one of `targets`.
pub open spec fn is_shortest_distance(
    board: BoardView,
    targets: Seq<Coordinate>,
    food_penalty: int,
    start: Coordinate,
    distance: int,
) -> bool {
    &&& exists|p: Seq<Coordinate>| #[trigger]
        leads_to_target(board, targets, start, p) && path_cost(board, food_penalty, p) == distance
    &&& none_cheaper(board, targets, food_penalty, start, distance)
}

/// The cost of a cheapest walk from `start` to one of `targets`, and
/// nothing where no walk leads there.
pub open spec fn shortest_distance_spec(
    board: BoardView,
    targets: Seq<Coordinate>,
    food_penalty: int,
    start: Coordinate,
) -> Option<int> {
    if reachable(board, targets, start) {
        Some(choose|d: int| is_shortest_distance(board, targets, food_penalty, start, d))
    } else {
        None
    }
}

/// There is one shortest distance only.
pub proof fn lemma_shortest_distance_unique(
    board: BoardView,
    targets: Seq<Coordinate>,
    food_penalty: int,
    start: Coordinate,
    d: int,
)
    requires
        is_shortest_distance(board, targets, food_penalty, start, d),
    ensures
        shortest_distance_spec(board, targets, food_penalty, start) == Some(d),
{
    let p = choose|p: Seq<Coordinate>| #[trigger]
        leads_to_target(board, targets, start, p) && path_cost(board, food_penalty, p) == d;
    assert(reachable(board, targets, start));
    let e = choose|e: int| is_shortest_distance(board, targets, food_penalty, start, e);
    let pe = choose|p: Seq<Coordinate>| #[trigger]
        leads_to_target(board, targets, start, p) && path_cost(board, food_penalty, p) == e;
    assert(d <= path_cost(board, food_penalty, pe));
    assert(e <= path_cost(board, food_penalty, p));
}

/// True when `next` is what the first step of a cheapest walk from `start`
/// to one of `targets` is reported as: nothing where there is no such walk
/// or where `start` is a target, and else the direction of the first step of
/// some cheapest walk.
pub open spec fn is_next_direction(
    board: BoardView,
    targets: Seq<Coordinate>,
    food_penalty: int,
    start: Coordinate,
    next: Option<Direction>,
) -> bool {
    &&& next.is_none() <==> !reachable(board, targets, start) || targets.contains(start)
    &&& next matches Some(d) ==> exists|p: Seq<Coordinate>| #[trigger]
        is_shortest_path(board, targets, food_penalty, start, p) && p.len() >= 2 && moved(start, d)
            == (p[1].x as int, p[1].y as int)
}

/// True when a search on `board` with `food_penalty` can be carried out:
/// the penalty is not negative, so that no step costs less than one, and the
/// dearest step taken once from every cell of the board and from the start
/// stays within [`COST_LIMIT`].
pub open spec fn search_fits(board: BoardView, food_penalty: int) -> bool {
    &&& 0 <= food_penalty
    &&& (board.width * board.height + 1) * (food_penalty + 2) <= COST_LIMIT
}

/// A walk that goes one allowed step further costs what it cost before and
/// what leaving its last cell costs.
pub proof fn lemma_path_push(
    board: BoardView,
    targets: Seq<Coordinate>,
    food_penalty: int,
    p: Seq<Coordinate>,
    n: Coordinate,
)
    requires
        is_path(board, targets, p),
        step_allowed(board, targets, p.last(), n),
    ensures
        is_path(board, targets, p.push(n)),
        path_cost(board, food_penalty, p.push(n)) == path_cost(board, food_penalty, p)
            + step_cost(board, food_penalty, p.last()),
        p.push(n)[0] == p[0],
        p.push(n).last() == n,
{
    let q = p.push(n);
    assert(q.drop_last() =~= p);
    assert forall|i: int| 0 <= i < q.len() - 1 implies step_allowed(
        board,
        targets,
        q[i],
        #[trigger] q[i + 1],
    ) by {
        if i < p.len() - 1 {
            assert(q[i + 1] == p[i + 1]);
        }
    }
}

/// A walk that starts one allowed step earlier costs what it cost before and
/// what leaving the new first cell costs.
pub proof fn lemma_path_prepend(
    board: BoardView,
    targets: Seq<Coordinate>,
    food_penalty: int,
    c: Coordinate,
    t: Seq<Coordinate>,
)
    requires
        is_path(board, targets, t),
        step_allowed(board, targets, c, t[0]),
    ensures
        is_path(board, targets, seq![c] + t),
        path_cost(board, food_penalty, seq![c] + t) == step_cost(board, food_penalty, c)
            + path_cost(board, food_penalty, t),
    decreases t.len(),
{
    let q = seq![c] + t;
    assert forall|i: int| 0 <= i < q.len() - 1 implies step_allowed(
        board,
        targets,
        q[i],
        #[trigger] q[i + 1],
    ) by {
        if i >= 1 {
            assert(q[i] == t[i - 1]);
            assert(q[i + 1] == t[i - 1 + 1]);
        }
    }
    if t.len() == 1 {
        assert(q.drop_last() =~= seq![c]);
        assert(path_cost(board, food_penalty, seq![c]) == 0);
    } else {
        let shorter = t.drop_last();
        assert forall|i: int| 0 <= i < shorter.len() - 1 implies step_allowed(
            board,
            targets,
            shorter[i],
            #[trigger] shorter[i + 1],
        ) by {
            assert(shorter[i + 1] == t[i + 1]);
        }
        lemma_path_prepend(board, targets, food_penalty, c, shorter);
        assert(q.drop_last() =~= seq![c] + shorter);
        assert(q[q.len() - 2] == t[t.len() - 2]);
    }
}

/// A walk costs at least one for each of its steps.
pub proof fn lemma_path_cost_at_least_steps(
    board: BoardView,
    food_penalty: int,
    p: Seq<Coordinate>,
)
    requires
        0 <= food_penalty,
        p.len() >= 1,
    ensures
        path_cost(board, food_penalty, p) >= p.len() - 1,
    decreases p.len(),
{
    if p.len() > 1 {
        lemma_path_cost_at_least_steps(board, food_penalty, p.drop_last());
    }
}

/// Along a walk, what has been paid plus the estimate of what is left never
/// goes down: the estimate is consistent with the step costs.
pub proof fn lemma_estimate_consistent(
    board: BoardView,
    targets: Seq<Coordinate>,
    food_penalty: int,
    p: Seq<Coordinate>,
    i: int,
    j: int,
)
    requires
        0 <= food_penalty,
        targets.len() > 0,
        is_path(board, targets, p),
        0 <= i <= j < p.len(),
    ensures
        path_cost(board, food_penalty, p.take(i + 1)) + heuristic_spec(p[i], targets)
            <= path_cost(board, food_penalty, p.take(j + 1)) + heuristic_spec(p[j], targets),
    decreases j - i,
{
    if i < j {
        lemma_estimate_consistent(board, targets, food_penalty, p, i, j - 1);
        let shorter = p.take(j);
        let longer = p.take(j + 1);
        assert(longer.drop_last() =~= shorter);
        assert(longer[longer.len() - 2] == p[j - 1]);
        assert(step_allowed(board, targets, p[j - 1], p[j - 1 + 1]));
        lemma_heuristic_step(p[j - 1], p[j], targets);
        lemma_step_cost_bounds(board, food_penalty, p[j - 1]);
    }
}

/// The cells of the board next to `c` are the ends of the steps from `c`.
pub proof fn lemma_neighbors(board: BoardView, c: Coordinate)
    ensures
        possible_moves(board, c).len() <= 4,
        forall|k: int|
            0 <= k < possible_moves(board, c).len() ==> adjacent(
                c,
                (#[trigger] possible_moves(board, c)[k]).1,
            ) && on_board(board, possible_moves(board, c)[k].1),
        forall|n: Coordinate|
            adjacent(c, n) && on_board(board, n) ==> exists|k: int|
                0 <= k < possible_moves(board, c).len() && (#[trigger] possible_moves(
                    board,
                    c,
                )[k]).1 == n,
{
    let up = move_if_within(board.width as int, board.height as int, c, Direction::UP);
    let right = move_if_within(board.width as int, board.height as int, c, Direction::RIGHT);
    let down = move_if_within(board.width as int, board.height as int, c, Direction::DOWN);
    let left = move_if_within(board.width as int, board.height as int, c, Direction::LEFT);
    let all = possible_moves(board, c);
    assert(all =~= up + right + down + left);
    assert forall|n: Coordinate| adjacent(c, n) && on_board(board, n) implies exists|k: int|
        0 <= k < all.len() && (#[trigger] all[k]).1 == n by {
        if n.y == c.y + 1 {
            assert(up.len() == 1 && up[0].1 == n);
            assert(all[0].1 == n);
        } else if n.x == c.x + 1 {
            assert(right.len() == 1 && right[0].1 == n);
            assert(all[up.len() as int].1 == n);
        } else if n.y == c.y - 1 {
            assert(down.len() == 1 && down[0].1 == n);
            assert(all[(up.len() + right.len()) as int].1 == n);
        } else {
            assert(n.x == c.x - 1);
            assert(left.len() == 1 && left[0].1 == n);
            assert(all[(up.len() + right.len() + down.len()) as int].1 == n);
        }
    }
}

/// The estimate never exceeds what the way to a target really costs: for
/// every walk from a cell to a target, the Manhattan estimate at that cell
/// is at most the cost of the walk.
pub proof fn heuristic_is_admissible(
    board: BoardView,
    targets: Seq<Coordinate>,
    food_penalty: int,
    c: Coordinate,
    p: Seq<Coordinate>,
)
    requires
        0 <= food_penalty,
        leads_to_target(board, targets, c, p),
    ensures
        heuristic_spec(c, targets) <= path_cost(board, food_penalty, p),
{
    let last = p.len() - 1;
    lemma_estimate_consistent(board, targets, food_penalty, p, 0, last);
    assert(p.take(last + 1) =~= p);
    assert(path_cost(board, food_penalty, p.take(1)) == 0);
    lemma_heuristic_at_target(p[last], targets);
}

/// A walk whose every step costs one has one cell more than it costs.
pub proof fn lemma_unit_steps(board: BoardView, food_penalty: int, p: Seq<Coordinate>)
    requires
        p.len() >= 1,
        forall|i: int|
            0 <= i < p.len() - 1 ==> step_cost(board, food_penalty, #[trigger] p[i]) == 1,
    ensures
        path_cost(board, food_penalty, p) == p.len() - 1,
    decreases p.len(),
{
    if p.len() > 1 {
        let shorter = p.drop_last();
        assert forall|i: int| 0 <= i < shorter.len() - 1 implies step_cost(
            board,
            food_penalty,
            #[trigger] shorter[i],
        ) == 1 by {
            assert(shorter[i] == p[i]);
        }
        lemma_unit_steps(board, food_penalty, shorter);
    }
}

/// A shortest path costs the shortest distance.
pub proof fn shortest_path_costs_distance(
    board: BoardView,
    targets: Seq<Coordinate>,
    food_penalty: int,
    start: Coordinate,
    path: Seq<Coordinate>,
    distance: int,
)
    requires
        is_shortest_path(board, targets, food_penalty, start, path),
        is_shortest_distance(board, targets, food_penalty, start, distance),
    ensures
        path_cost(board, food_penalty, path) == distance,
{
    let p = choose|p: Seq<Coordinate>| #[trigger]
        leads_to_target(board, targets, start, p) && path_cost(board, food_penalty, p) == distance;
    assert(path_cost(board, food_penalty, path) <= path_cost(board, food_penalty, p));
}

/// The length of a shortest path, less one, is the shortest distance,
/// where the path leaves no cell at a cost other than one: no hazard cell,
/// and no food cell while there is a food penalty.
pub proof fn path_length_is_distance(
    board: BoardView,
    targets: Seq<Coordinate>,
    food_penalty: int,
    start: Coordinate,
    path: Seq<Coordinate>,
    distance: int,
)
    requires
        is_shortest_path(board, targets, food_penalty, start, path),
        is_shortest_distance(board, targets, food_penalty, start, distance),
        forall|i: int|
            0 <= i < path.len() - 1 ==> step_cost(board, food_penalty, #[trigger] path[i]) == 1,
    ensures
        path.len() - 1 == distance,
{
    lemma_unit_steps(board, food_penalty, path);
    let p = choose|p: Seq<Coordinate>| #[trigger]
        leads_to_target(board, targets, start, p) && path_cost(board, food_penalty, p) == distance;
    assert(path_cost(board, food_penalty, path) <= path_cost(board, food_penalty, p));
}

} // verus!
