//! The state of a running shortest-path search and its invariant, and why
//! the cell that leaves the open list first has been reached as cheaply as
//! it can be.

use vstd::prelude::*;
use vstd::relations::injective_on;
use vstd::set_lib::{lemma_int_range, lemma_len_subset, lemma_map_size, set_int_range};
use crate::path_model::{
    heuristic_spec, is_path, is_route, leads_to_target, lemma_estimate_consistent,
    lemma_heuristic_at_target, lemma_path_cost_at_least_steps, lemma_path_prepend,
    lemma_path_push, lemma_step_cost_bounds, none_cheaper, path_cost, step_allowed, step_cost,
};
use crate::types::{coord_lt, on_board, BoardView, Coordinate};

verus! {

/// One entry of the open list: a cell, and what the way to it cost plus the
/// estimate of the rest of the way.
#[derive(Clone, Copy, Debug, PartialEq, Eq, Structural)]
pub struct Node {
    pub cost: i64,
    pub coordinate: Coordinate,
}

/// The order in which entries leave the open list: the lower cost first,
/// and of two entries with one cost the one whose cell is the greater.
pub open spec fn pops_before(a: Node, b: Node) -> bool {
    a.cost < b.cost || (a.cost == b.cost && coord_lt(b.coordinate, a.coordinate))
}

/// The key under which a cell is filed in a hash map. Different cells have
/// different keys.
pub open spec fn cell_key(c: Coordinate) -> u64 {
    ((c.x - i32::MIN) * 0x1_0000_0000 + (c.y - i32::MIN)) as u64
}

/// Different cells have different keys.
pub proof fn lemma_cell_key_injective(a: Coordinate, b: Coordinate)
    requires
        cell_key(a) == cell_key(b),
    ensures
        a == b,
{
}

/// No estimate is greater than this.
pub const ESTIMATE_MAX: i64 = 0x2_0000_0000;

/// What is searched for: walks on `board` from `start` to one of `targets`.
pub struct Quest {
    pub board: BoardView,
    pub start: Coordinate,
    pub targets: Seq<Coordinate>,
    pub food_penalty: int,
}

/// How far a search has come.
pub struct Progress {
    /// For each cell reached, filed under its key, the cost of the cheapest walk found to it.
    pub known: Map<u64, i64>,
    /// For each cell reached, the cell before it on that walk.
    pub preds: Map<u64, Option<Coordinate>>,
    /// The open list.
    pub open: Seq<Node>,
    /// The cells whose neighbours have been looked at.
    pub closed: Set<Coordinate>,
}

impl Quest {
    /// There is a target, and the food penalty is not negative.
    pub open spec fn wf(self) -> bool {
        0 <= self.food_penalty && self.targets.len() > 0
    }

    /// The cost of the walk `p`.
    pub open spec fn cost(self, p: Seq<Coordinate>) -> int {
        path_cost(self.board, self.food_penalty, p)
    }

    /// The cost of leaving `c`.
    pub open spec fn leaving(self, c: Coordinate) -> int {
        step_cost(self.board, self.food_penalty, c)
    }

    /// The estimate of the way from `c` to the nearest target.
    pub open spec fn estimate(self, c: Coordinate) -> int {
        heuristic_spec(c, self.targets)
    }

    /// True when the search may step from `a` to `b`.
    pub open spec fn allowed(self, a: Coordinate, b: Coordinate) -> bool {
        step_allowed(self.board, self.targets, a, b)
    }

    /// True when `p` is a walk from the start to `c`.
    pub open spec fn route(self, c: Coordinate, p: Seq<Coordinate>) -> bool {
        is_route(self.board, self.targets, self.start, c, p)
    }

    /// The greatest cost of leaving a cell.
    pub open spec fn dearest_step(self) -> int {
        self.food_penalty + 2
    }

    /// The number of cells a search can reach at most: those of the board, and the start.
    pub open spec fn cells(self) -> int {
        self.board.width * self.board.height + 1
    }
}

impl Progress {
    /// True when `c` has been reached.
    #[verifier::inline]
    pub open spec fn has(self, c: Coordinate) -> bool {
        self.known.contains_key(cell_key(c))
    }

    /// The known cost of `c`.
    #[verifier::inline]
    pub open spec fn g(self, c: Coordinate) -> int {
        self.known[cell_key(c)] as int
    }
}

/// The search for walks on `board` from `start` to one of `targets`.
pub open spec fn quest(
    board: BoardView,
    start: Coordinate,
    targets: Seq<Coordinate>,
    food_penalty: int,
) -> Quest {
    Quest { board, start, targets, food_penalty }
}

/// True when some walk from the start to `c` costs `cost`.
pub open spec fn reached_at(q: Quest, c: Coordinate, cost: int) -> bool {
    exists|p: Seq<Coordinate>| #[trigger] q.route(c, p) && q.cost(p) == cost
}

/// True when no walk from the start to `c` costs less than `cost`.
pub open spec fn cheapest(q: Quest, c: Coordinate, cost: int) -> bool {
    forall|p: Seq<Coordinate>| #[trigger] q.route(c, p) ==> cost <= q.cost(p)
}

/// True when every cell one allowed step from `c` has been reached no
/// dearer than by way of `c`.
pub open spec fn relaxed(q: Quest, s: Progress, c: Coordinate) -> bool {
    forall|n: Coordinate| #[trigger] q.allowed(c, n) ==> s.has(n) && s.g(n) <= s.g(c) + q.leaving(c)
}

/// True when the open list holds an entry for `c` that is no dearer than
/// the known cost of `c` and the estimate from `c`.
pub open spec fn live_entry(q: Quest, s: Progress, c: Coordinate) -> bool {
    exists|j: int|
        0 <= j < s.open.len() && (#[trigger] s.open[j]).coordinate == c && s.open[j].cost <= s.g(c)
            + q.estimate(c)
}

/// What holds of the cells reached: each is the start or on the board; its
/// known cost is that of a walk to it; and the cell before it has been
/// reached too, one allowed step away and cheaply enough.
pub open spec fn known_ok(q: Quest, s: Progress, limit: int) -> bool {
    &&& s.has(q.start)
    &&& s.g(q.start) == 0
    &&& forall|c: Coordinate| #[trigger]
        s.has(c) ==> {
            &&& c == q.start || on_board(q.board, c)
            &&& 0 <= s.g(c) <= limit
            &&& reached_at(q, c, s.g(c))
            &&& s.preds.contains_key(cell_key(c))
            &&& c == q.start ==> s.preds[cell_key(c)].is_none()
            &&& c != q.start ==> (s.preds[cell_key(c)] matches Some(b) && s.has(b) && q.allowed(
                b,
                c,
            ) && s.g(b) + q.leaving(b) <= s.g(c))
        }
}

/// What holds of the closed cells: none is a target, each is relaxed, and
/// each has been reached as cheaply as it can be.
pub open spec fn closed_ok(q: Quest, s: Progress) -> bool {
    &&& s.closed.finite()
    &&& forall|c: Coordinate| #[trigger]
        s.closed.contains(c) ==> s.has(c) && !q.targets.contains(c) && relaxed(q, s, c)
            && cheapest(q, c, s.g(c))
}

/// What holds of the open list: every cell reached and not closed has a
/// live entry, but for the cell `exempt` whose neighbours are being looked
/// at; and every entry is for a reached cell and no cheaper than its known
/// cost and estimate, but for the first entry of the start.
pub open spec fn open_ok(q: Quest, s: Progress, limit: int, exempt: Option<Coordinate>) -> bool {
    &&& forall|c: Coordinate| #[trigger]
        s.has(c) && !s.closed.contains(c) && exempt != Some(c) ==> live_entry(q, s, c)
    &&& forall|j: int|
        0 <= j < s.open.len() ==> {
            let e = #[trigger] s.open[j];
            &&& s.has(e.coordinate)
            &&& e.cost <= limit + ESTIMATE_MAX
            &&& (s.g(e.coordinate) + q.estimate(e.coordinate) <= e.cost || (e.coordinate
                == q.start && e.cost == 0))
        }
}

/// The invariant of the search.
pub open spec fn search_ok(q: Quest, s: Progress, limit: int, exempt: Option<Coordinate>) -> bool {
    &&& q.wf()
    &&& known_ok(q, s, limit)
    &&& closed_ok(q, s)
    &&& open_ok(q, s, limit, exempt)
}

/// The state in which a search starts.
pub open spec fn initial(q: Quest) -> Progress {
    Progress {
        known: Map::empty().insert(cell_key(q.start), 0i64),
        preds: Map::empty().insert(cell_key(q.start), None),
        open: seq![Node { cost: 0, coordinate: q.start }],
        closed: Set::empty(),
    }
}

/// A search starts in a state that meets the invariant.
pub proof fn lemma_initial(q: Quest)
    requires
        q.wf(),
    ensures
        search_ok(q, initial(q), 0, None),
{
    let s = initial(q);
    let p = seq![q.start];
    assert(q.route(q.start, p));
    assert(q.cost(p) == 0);
    assert forall|c: Coordinate| #[trigger] s.has(c) implies c == q.start by {
        lemma_cell_key_injective(c, q.start);
    }
    assert(s.open[0].coordinate == q.start);
    lemma_heuristic_at_target(q.start, q.targets);
    assert(live_entry(q, s, q.start));
}

/// A greater limit is met all the more.
pub proof fn lemma_raise_limit(
    q: Quest,
    s: Progress,
    limit: int,
    higher: int,
    exempt: Option<Coordinate>,
)
    requires
        search_ok(q, s, limit, exempt),
        limit <= higher,
    ensures
        search_ok(q, s, higher, exempt),
{
    assert forall|j: int| 0 <= j < s.open.len() implies (#[trigger] s.open[j]).cost <= higher
        + ESTIMATE_MAX by {}
}

/// Along a walk from the start, as far as its `k`-th cell: either all of it
/// is closed, and the `k`-th cell is known no dearer than the walk reaches
/// it; or some cell of it is reached, not closed, and known no dearer than
/// the walk reaches it.
pub open spec fn frontier_at(q: Quest, s: Progress, p: Seq<Coordinate>, k: int) -> bool {
    ||| s.closed.contains(p[k]) && s.has(p[k]) && s.g(p[k]) <= q.cost(p.take(k + 1))
    ||| exists|i: int|
        0 <= i <= k && s.has(#[trigger] p[i]) && !s.closed.contains(p[i]) && s.g(p[i]) <= q.cost(
            p.take(i + 1),
        )
}

/// Every walk from the start has a frontier at each of its cells.
pub proof fn lemma_frontier(q: Quest, s: Progress, limit: int, p: Seq<Coordinate>, k: int)
    requires
        q.wf(),
        known_ok(q, s, limit),
        closed_ok(q, s),
        is_path(q.board, q.targets, p),
        p[0] == q.start,
        0 <= k < p.len(),
    ensures
        frontier_at(q, s, p, k),
    decreases k,
{
    if k == 0 {
        assert(q.cost(p.take(1)) == 0);
        assert(s.has(p[0]));
        if !s.closed.contains(p[0]) {
            assert(s.has(p[0]) && !s.closed.contains(p[0]) && s.g(p[0]) <= q.cost(
                p.take(0int + 1),
            ));
        }
    } else {
        lemma_frontier(q, s, limit, p, k - 1);
        if s.closed.contains(p[k - 1]) && s.has(p[k - 1]) && s.g(p[k - 1]) <= q.cost(p.take(k)) {
            let shorter = p.take(k);
            let longer = p.take(k + 1);
            assert(longer.drop_last() =~= shorter);
            assert(longer[longer.len() - 2] == p[k - 1]);
            assert(q.cost(longer) == q.cost(shorter) + q.leaving(p[k - 1]));
            assert(step_allowed(q.board, q.targets, p[k - 1], p[k - 1 + 1]));
            assert(q.allowed(p[k - 1], p[k]));
            assert(relaxed(q, s, p[k - 1]));
            assert(s.has(p[k]) && s.g(p[k]) <= q.cost(longer));
            if !s.closed.contains(p[k]) {
                assert(s.has(p[k]) && !s.closed.contains(p[k]) && s.g(p[k]) <= q.cost(
                    p.take(k + 1),
                ));
            }
        } else {
            let i = choose|i: int|
                0 <= i <= k - 1 && s.has(#[trigger] p[i]) && !s.closed.contains(p[i]) && s.g(p[i])
                    <= q.cost(p.take(i + 1));
            assert(0 <= i <= k && s.has(p[i]) && !s.closed.contains(p[i]) && s.g(p[i]) <= q.cost(
                p.take(i + 1),
            ));
        }
    }
}

/// Where `floor` is no greater than the cost of any entry of the open list,
/// every walk from the start either ends in a closed cell that is known no
/// dearer than the walk, or costs, with the estimate from its end, at least
/// `floor`.
pub proof fn lemma_floor(q: Quest, s: Progress, limit: int, p: Seq<Coordinate>, floor: int)
    requires
        search_ok(q, s, limit, None),
        is_path(q.board, q.targets, p),
        p[0] == q.start,
        forall|j: int| 0 <= j < s.open.len() ==> floor <= (#[trigger] s.open[j]).cost,
    ensures
        (s.closed.contains(p.last()) && s.has(p.last()) && s.g(p.last()) <= q.cost(p)) || floor
            <= q.cost(p) + q.estimate(p.last()),
{
    let last = p.len() - 1;
    lemma_frontier(q, s, limit, p, last);
    assert(p.take(last + 1) =~= p);
    if !(s.closed.contains(p[last]) && s.has(p[last]) && s.g(p[last]) <= q.cost(p)) {
        let i = choose|i: int|
            0 <= i <= last && s.has(#[trigger] p[i]) && !s.closed.contains(p[i]) && s.g(p[i])
                <= q.cost(p.take(i + 1));
        assert(live_entry(q, s, p[i]));
        let j = choose|j: int|
            0 <= j < s.open.len() && (#[trigger] s.open[j]).coordinate == p[i] && s.open[j].cost
                <= s.g(p[i]) + q.estimate(p[i]);
        lemma_estimate_consistent(q.board, q.targets, q.food_penalty, p, i, last);
    }
}

/// Where the open list is empty, no walk leads from the start to a target.
pub proof fn lemma_exhausted(q: Quest, s: Progress, limit: int)
    requires
        search_ok(q, s, limit, None),
        s.open.len() == 0,
    ensures
        forall|p: Seq<Coordinate>| !leads_to_target(q.board, q.targets, q.start, p),
{
    assert forall|p: Seq<Coordinate>| !leads_to_target(q.board, q.targets, q.start, p) by {
        if leads_to_target(q.board, q.targets, q.start, p) {
            let last = p.len() - 1;
            lemma_frontier(q, s, limit, p, last);
            if !s.closed.contains(p[last]) {
                let i = choose|i: int|
                    0 <= i <= last && s.has(#[trigger] p[i]) && !s.closed.contains(p[i]) && s.g(
                        p[i],
                    ) <= q.cost(p.take(i + 1));
                assert(live_entry(q, s, p[i]));
            }
        }
    }
}

/// The state after the entry at `i` has left the open list.
pub open spec fn after_pop(s: Progress, i: int) -> Progress {
    Progress { open: s.open.remove(i), ..s }
}

/// What is known when the entry that is cheapest leaves the open list: no
/// walk to a target costs less than that entry, its cell has been reached
/// as cheaply as it can be, and the invariant holds with that cell exempt.
#[verifier::rlimit(50)]
pub proof fn lemma_after_pop(q: Quest, s: Progress, limit: int, i: int)
    requires
        search_ok(q, s, limit, None),
        0 <= i < s.open.len(),
        forall|j: int| 0 <= j < s.open.len() ==> s.open[i].cost <= (#[trigger] s.open[j]).cost,
    ensures
        search_ok(q, after_pop(s, i), limit, Some(s.open[i].coordinate)),
        s.has(s.open[i].coordinate),
        none_cheaper(q.board, q.targets, q.food_penalty, q.start, s.open[i].cost as int),
        cheapest(q, s.open[i].coordinate, s.g(s.open[i].coordinate)),
        q.targets.contains(s.open[i].coordinate) ==> s.open[i].cost == s.g(s.open[i].coordinate),
{
    let cur = s.open[i].coordinate;
    let f = s.open[i].cost as int;
    let s1 = after_pop(s, i);
    assert(s.has(cur));
    lemma_heuristic_at_target(cur, q.targets);
    assert forall|p: Seq<Coordinate>| #[trigger]
        leads_to_target(q.board, q.targets, q.start, p) implies f <= path_cost(
        q.board,
        q.food_penalty,
        p,
    ) by {
        lemma_floor(q, s, limit, p, f);
        lemma_heuristic_at_target(p.last(), q.targets);
    }
    assert forall|p: Seq<Coordinate>| #[trigger] q.route(cur, p) implies s.g(cur) <= q.cost(p) by {
        lemma_floor(q, s, limit, p, f);
        lemma_path_cost_at_least_steps(q.board, q.food_penalty, p);
    }
    if q.targets.contains(cur) {
        let w = choose|p: Seq<Coordinate>| #[trigger] q.route(cur, p) && q.cost(p) == s.g(cur);
        assert(leads_to_target(q.board, q.targets, q.start, w));
    }
    assert forall|c: Coordinate| #[trigger]
        s1.has(c) && !s1.closed.contains(c) && Some(cur) != Some(c) implies live_entry(
        q,
        s1,
        c,
    ) by {
        assert(live_entry(q, s, c));
        let j = choose|j: int|
            0 <= j < s.open.len() && (#[trigger] s.open[j]).coordinate == c && s.open[j].cost
                <= s.g(c) + q.estimate(c);
        if j < i {
            assert(s1.open[j] == s.open[j]);
        } else {
            assert(s1.open[j - 1] == s.open[j]);
        }
    }
    assert forall|j: int| 0 <= j < s1.open.len() implies {
        let e = #[trigger] s1.open[j];
        &&& s1.has(e.coordinate)
        &&& e.cost <= limit + ESTIMATE_MAX
        &&& (s1.g(e.coordinate) + q.estimate(e.coordinate) <= e.cost || (e.coordinate == q.start
            && e.cost == 0))
    } by {
        if j < i {
            assert(s1.open[j] == s.open[j]);
        } else {
            assert(s1.open[j] == s.open[j + 1]);
        }
    }
    assert(closed_ok(q, s1)) by {
        assert forall|c: Coordinate| #[trigger] s1.closed.contains(c) implies relaxed(q, s1, c) by {
            assert(relaxed(q, s, c));
        }
    }
}

/// The state after `n` has been reached by way of `cur` at the cost `tentative`.
pub open spec fn after_relax(
    q: Quest,
    s: Progress,
    cur: Coordinate,
    n: Coordinate,
    tentative: int,
) -> Progress {
    Progress {
        known: s.known.insert(cell_key(n), tentative as i64),
        preds: s.preds.insert(cell_key(n), Some(cur)),
        open: s.open.push(Node { cost: (tentative + q.estimate(n)) as i64, coordinate: n }),
        closed: s.closed,
    }
}

/// Reaching a neighbour more cheaply than before keeps the invariant; and
/// it happens only by way of a cell that is not closed.
#[verifier::rlimit(50)]
pub proof fn lemma_relax(
    q: Quest,
    s: Progress,
    limit: int,
    cur: Coordinate,
    n: Coordinate,
    tentative: int,
)
    requires
        search_ok(q, s, limit, Some(cur)),
        s.has(cur),
        q.allowed(cur, n),
        tentative == s.g(cur) + q.leaving(cur),
        tentative <= limit,
        limit + ESTIMATE_MAX <= i64::MAX,
        !s.has(n) || tentative < s.g(n),
    ensures
        search_ok(q, after_relax(q, s, cur, n, tentative), limit, Some(cur)),
        !s.closed.contains(cur),
        !s.closed.contains(n),
        n != cur,
        n != q.start,
        after_relax(q, s, cur, n, tentative).g(cur) == s.g(cur),
{
    let s2 = after_relax(q, s, cur, n, tentative);
    lemma_step_cost_bounds(q.board, q.food_penalty, cur);
    lemma_heuristic_at_target(n, q.targets);
    let w = choose|p: Seq<Coordinate>| #[trigger] q.route(cur, p) && q.cost(p) == s.g(cur);
    lemma_path_push(q.board, q.targets, q.food_penalty, w, n);
    let wn = w.push(n);
    assert(q.route(n, wn) && q.cost(wn) == tentative);
    if s.closed.contains(cur) {
        assert(relaxed(q, s, cur));
    }
    if s.closed.contains(n) {
        assert(cheapest(q, n, s.g(n)));
    }
    assert(n != cur);
    assert(cell_key(n) != cell_key(cur)) by {
        if cell_key(n) == cell_key(cur) {
            lemma_cell_key_injective(n, cur);
        }
    }
    assert(cell_key(n) != cell_key(q.start)) by {
        if cell_key(n) == cell_key(q.start) {
            lemma_cell_key_injective(n, q.start);
        }
    }
    assert forall|c: Coordinate| #[trigger] s2.has(c) implies {
        &&& c == q.start || on_board(q.board, c)
        &&& 0 <= s2.g(c) <= limit
        &&& reached_at(q, c, s2.g(c))
        &&& s2.preds.contains_key(cell_key(c))
        &&& c == q.start ==> s2.preds[cell_key(c)].is_none()
        &&& c != q.start ==> (s2.preds[cell_key(c)] matches Some(b) && s2.has(b) && q.allowed(b, c)
            && s2.g(b) + q.leaving(b) <= s2.g(c))
    } by {
        if cell_key(c) == cell_key(n) {
            lemma_cell_key_injective(c, n);
            assert(s2.g(cur) == s.g(cur));
        } else {
            assert(s.has(c));
            if c != q.start {
                let b = s.preds[cell_key(c)]->0;
                assert(s.has(b));
                assert(s2.g(b) <= s.g(b));
            }
        }
    }
    assert forall|c: Coordinate| #[trigger] s2.closed.contains(c) implies s2.has(c)
        && !q.targets.contains(c) && relaxed(q, s2, c) && cheapest(q, c, s2.g(c)) by {
        assert(c != n);
        assert(cell_key(c) != cell_key(n)) by {
            if cell_key(c) == cell_key(n) {
                lemma_cell_key_injective(c, n);
            }
        }
        assert(relaxed(q, s, c));
        assert forall|m: Coordinate| #[trigger] q.allowed(c, m) implies s2.has(m) && s2.g(m)
            <= s2.g(c) + q.leaving(c) by {
            assert(s.has(m));
        }
    }
    assert forall|c: Coordinate| #[trigger]
        s2.has(c) && !s2.closed.contains(c) && Some(cur) != Some(c) implies live_entry(
        q,
        s2,
        c,
    ) by {
        if cell_key(c) == cell_key(n) {
            lemma_cell_key_injective(c, n);
            assert(s2.open[s.open.len() as int].coordinate == n);
        } else {
            assert(s.has(c));
            assert(live_entry(q, s, c));
            let j = choose|j: int|
                0 <= j < s.open.len() && (#[trigger] s.open[j]).coordinate == c && s.open[j].cost
                    <= s.g(c) + q.estimate(c);
            assert(s2.open[j] == s.open[j]);
        }
    }
    assert forall|j: int| 0 <= j < s2.open.len() implies {
        let e = #[trigger] s2.open[j];
        &&& s2.has(e.coordinate)
        &&& e.cost <= limit + ESTIMATE_MAX
        &&& (s2.g(e.coordinate) + q.estimate(e.coordinate) <= e.cost || (e.coordinate == q.start
            && e.cost == 0))
    } by {
        if j < s.open.len() {
            assert(s2.open[j] == s.open[j]);
            let c = s.open[j].coordinate;
            assert(s.has(c));
            if cell_key(c) == cell_key(n) {
                lemma_cell_key_injective(c, n);
            }
        }
    }
}

/// What holds while the neighbours of `cur` are looked at: the invariant
/// with `cur` exempt, and `tentative` is what a neighbour costs by way of `cur`.
pub open spec fn expanding(
    q: Quest,
    s: Progress,
    limit: int,
    cur: Coordinate,
    tentative: int,
) -> bool {
    &&& search_ok(q, s, limit, Some(cur))
    &&& s.has(cur)
    &&& tentative == s.g(cur) + q.leaving(cur)
    &&& tentative <= limit
    &&& limit + ESTIMATE_MAX <= i64::MAX
}

/// True when `n`, if it is one allowed step from `cur`, has been reached
/// no dearer than `tentative`.
pub open spec fn relaxed_towards(
    q: Quest,
    s: Progress,
    cur: Coordinate,
    n: Coordinate,
    tentative: int,
) -> bool {
    q.allowed(cur, n) ==> s.has(n) && s.g(n) <= tentative
}

/// True when every cell reached in `before` is reached in `after`, and no dearer.
pub open spec fn no_dearer(before: Progress, after: Progress) -> bool {
    forall|c: Coordinate| #[trigger]
        before.has(c) ==> after.has(c) && after.g(c) <= before.g(c)
}

/// The state after the neighbours of `cur` have been looked at.
pub open spec fn after_close(s: Progress, cur: Coordinate) -> Progress {
    Progress { closed: s.closed.insert(cur), ..s }
}

/// A cell that is relaxed and reached as cheaply as can be may be closed.
pub proof fn lemma_close(q: Quest, s: Progress, limit: int, cur: Coordinate)
    requires
        search_ok(q, s, limit, Some(cur)),
        s.has(cur),
        !q.targets.contains(cur),
        relaxed(q, s, cur),
        cheapest(q, cur, s.g(cur)),
    ensures
        search_ok(q, after_close(s, cur), limit, None),
{
    let s3 = after_close(s, cur);
    assert forall|c: Coordinate| #[trigger] s3.closed.contains(c) implies s3.has(c)
        && !q.targets.contains(c) && relaxed(q, s3, c) && cheapest(q, c, s3.g(c)) by {
        if c != cur {
            assert(s.closed.contains(c));
            assert(relaxed(q, s, c));
        }
    }
    assert forall|c: Coordinate| #[trigger]
        s3.has(c) && !s3.closed.contains(c) && None::<Coordinate> != Some(c) implies live_entry(
        q,
        s3,
        c,
    ) by {
        assert(c != cur);
        assert(live_entry(q, s, c));
        let j = choose|j: int|
            0 <= j < s.open.len() && (#[trigger] s.open[j]).coordinate == c && s.open[j].cost
                <= s.g(c) + q.estimate(c);
        assert(s3.open[j] == s.open[j]);
    }
}

/// The place of a cell in a numbering of the cells that a search can
/// reach: the cells of the board row by row, and then the start.
pub open spec fn slot(q: Quest, c: Coordinate) -> int {
    if on_board(q.board, c) {
        c.y * q.board.width + c.x
    } else {
        q.board.width * q.board.height
    }
}

/// Cells of the board have different places, all below the number of cells of the board.
pub proof fn lemma_slot(q: Quest, a: Coordinate, b: Coordinate)
    requires
        on_board(q.board, a),
    ensures
        0 <= slot(q, a) < q.board.width * q.board.height,
        on_board(q.board, b) && slot(q, a) == slot(q, b) ==> a == b,
{
    let w = q.board.width as int;
    let h = q.board.height as int;
    assert(0 <= a.y * w && a.y * w + w <= h * w) by (nonlinear_arith)
        requires
            0 <= a.y < h,
            0 <= w,
    ;
    assert(h * w == w * h) by (nonlinear_arith);
    if on_board(q.board, b) && slot(q, a) == slot(q, b) {
        assert(a.y == b.y) by (nonlinear_arith)
            requires
                a.y * w + a.x == b.y * w + b.x,
                0 <= a.x < w,
                0 <= b.x < w,
        ;
        assert(a.x == b.x);
    }
}

/// A finite set of cells, each the start or on the board, has no more cells than there are.
pub proof fn lemma_cell_count(q: Quest, cells: Set<Coordinate>)
    requires
        cells.finite(),
        forall|c: Coordinate| cells.contains(c) ==> c == q.start || on_board(q.board, c),
    ensures
        cells.len() <= q.cells(),
{
    let f = |c: Coordinate| slot(q, c);
    let places = cells.map(f);
    let n = q.board.width * q.board.height;
    assert(0 <= n) by (nonlinear_arith)
        requires
            n == q.board.width * q.board.height,
            0 <= q.board.width,
            0 <= q.board.height,
    ;
    assert(injective_on(f, cells)) by {
        assert forall|x1: Coordinate, x2: Coordinate|
            cells.contains(x1) && cells.contains(x2) && #[trigger] f(x1) == #[trigger] f(
                x2,
            ) implies x1 == x2 by {
            if on_board(q.board, x1) {
                lemma_slot(q, x1, x2);
            } else if on_board(q.board, x2) {
                lemma_slot(q, x2, x1);
            }
        }
    }
    lemma_map_size(cells, places, f);
    lemma_int_range(0, n + 1);
    assert(places.subset_of(set_int_range(0, n + 1))) by {
        assert forall|k: int| places.contains(k) implies set_int_range(0, n + 1).contains(k) by {
            let c = choose|c: Coordinate| cells.contains(c) && f(c) == k;
            if on_board(q.board, c) {
                lemma_slot(q, c, c);
            }
        }
    }
    lemma_len_subset(places, set_int_range(0, n + 1));
}

/// What holds while a walk is traced back from the target `target`, known
/// at the cost `cost`: `tail` is the part traced so far, a walk that ends
/// in the target, and `current` is the cell before it, if there is one.
pub open spec fn traced(
    q: Quest,
    s: Progress,
    tail: Seq<Coordinate>,
    current: Option<Coordinate>,
    target: Coordinate,
    cost: int,
) -> bool {
    &&& current matches Some(c) ==> s.has(c)
    &&& tail.len() == 0 ==> current == Some(target)
    &&& tail.len() > 0 ==> {
        &&& is_path(q.board, q.targets, tail)
        &&& tail.last() == target
        &&& s.has(tail[0])
        &&& q.cost(tail) + s.g(tail[0]) <= cost
        &&& current.is_none() ==> tail[0] == q.start
        &&& current matches Some(c) ==> q.allowed(c, tail[0]) && s.g(c) + q.leaving(c) <= s.g(
            tail[0],
        )
    }
}

/// One step back along the cells filed in `s.preds` keeps [`traced`], and
/// leads to a cell that is known at a lower cost.
pub proof fn lemma_trace_step(
    q: Quest,
    s: Progress,
    bound: int,
    tail: Seq<Coordinate>,
    c: Coordinate,
    target: Coordinate,
    cost: int,
)
    requires
        q.wf(),
        known_ok(q, s, bound),
        s.has(target),
        s.g(target) == cost,
        traced(q, s, tail, Some(c), target, cost),
    ensures
        s.preds.contains_key(cell_key(c)),
        traced(q, s, seq![c] + tail, s.preds[cell_key(c)], target, cost),
        s.preds[cell_key(c)] matches Some(b) ==> 0 <= s.g(b) < s.g(c),
        0 <= s.g(c),
{
    let longer = seq![c] + tail;
    assert(s.has(c));
    lemma_step_cost_bounds(q.board, q.food_penalty, c);
    if tail.len() > 0 {
        lemma_path_prepend(q.board, q.targets, q.food_penalty, c, tail);
        assert(longer.last() == tail.last());
    } else {
        assert(q.cost(longer) == 0);
        assert(longer.last() == c);
    }
    assert(longer[0] == c);
    if c != q.start {
        let b = s.preds[cell_key(c)]->0;
        assert(s.has(b));
        lemma_step_cost_bounds(q.board, q.food_penalty, b);
    }
}

} // verus!
