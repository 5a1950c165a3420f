//! Shortest paths over the board: A* with terrain-dependent step costs.

use rustc_hash::FxHashMap;
use vstd::prelude::*;
use crate::fx::{fx_get, fx_insert, fx_new};
use crate::outside::{move_from_vector, position_sub_vec, position_to_vector};
use crate::path_model::{
    adjacent, dist_spec, heuristic_spec, is_least_distance, is_next_direction,
    is_shortest_distance, is_shortest_path, leads_to_target, least_distance_upto,
    lemma_heuristic_at_target, lemma_heuristic_is_least, lemma_neighbors,
    lemma_path_cost_at_least_steps, lemma_shortest_distance_unique, lemma_step_cost_bounds,
    none_cheaper, occupied, path_cost, reachable, search_fits, shortest_distance_spec,
    step_allowed, step_cost, COST_LIMIT, HAZARD_PENALTY, HEURISTIC_MAX, NEIGHBOR_DISTANCE,
};
use crate::search_state::{
    after_pop, after_relax, cell_key, expanding, initial, known_ok, lemma_after_pop,
    lemma_cell_count, lemma_close, lemma_exhausted, lemma_initial, lemma_raise_limit,
    lemma_relax, lemma_trace_step, no_dearer, pops_before, quest, reached_at, relaxed,
    relaxed_towards, search_ok, traced, Node, Progress, Quest,
};
use crate::types::{on_board, Board, BoardView, Coordinate, Direction, GameState};

verus! {

/// What a search may be told.
#[derive(Clone, Copy, Debug)]
pub struct APrimeOptions {
    /// What leaving a food cell costs on top of [`NEIGHBOR_DISTANCE`].
    pub food_penalty: i32,
}

/// The food penalty that `options` ask for: zero where there are none.
pub open spec fn food_penalty_of(options: Option<APrimeOptions>) -> int {
    match options {
        Some(o) => o.food_penalty as int,
        None => 0,
    }
}

/// The Manhattan distance between `a` and `b`.
pub fn dist_between(a: &Coordinate, b: &Coordinate) -> (d: i64)
    ensures
        d == dist_spec(*a, *b),
{
    let dx: i64 = a.x as i64 - b.x as i64;
    let dy: i64 = a.y as i64 - b.y as i64;
    let ax: i64 = if dx < 0 {
        -dx
    } else {
        dx
    };
    let ay: i64 = if dy < 0 {
        -dy
    } else {
        dy
    };
    ax + ay
}

/// The Manhattan distance between two cells of `game`.
pub fn dist_between_new(game: &GameState, a: &Coordinate, b: &Coordinate) -> (d: i64)
    ensures
        d == dist_spec(*a, *b),
{
    dist_between(a, b)
}

/// The estimate of the way from `start` to the nearest of `targets`: the
/// least Manhattan distance to one of them, and nothing where there is no
/// target.
pub fn hueristic(start: &Coordinate, targets: &[Coordinate]) -> (h: Option<i64>)
    ensures
        targets@.len() == 0 <==> h.is_none(),
        h matches Some(m) ==> m == heuristic_spec(*start, targets@) && is_least_distance(
            *start,
            targets@,
            m as int,
        ),
{
    if targets.len() == 0 {
        return None;
    }
    let mut least: i64 = dist_between(&targets[0], start);
    let mut i: usize = 1;
    while i < targets.len()
        invariant
            1 <= i <= targets.len(),
            least == least_distance_upto(*start, targets@, i as int),
        decreases targets.len() - i,
    {
        let d: i64 = dist_between(&targets[i], start);
        if d < least {
            least = d;
        }
        i += 1;
    }
    proof {
        lemma_heuristic_is_least(*start, targets@);
    }
    Some(least)
}

/// The key of `c`.
pub fn key_of(c: &Coordinate) -> (k: u64)
    ensures
        k == cell_key(*c),
{
    let x: u64 = (c.x as i64 - i32::MIN as i64) as u64;
    let y: u64 = (c.y as i64 - i32::MIN as i64) as u64;
    x * 0x1_0000_0000 + y
}

impl Node {
    /// Tells whether this entry leaves the open list before `other`.
    pub fn leaves_before(&self, other: &Node) -> (b: bool)
        ensures
            b == pops_before(*self, *other),
    {
        self.cost < other.cost || (self.cost == other.cost && other.coordinate.precedes(
            &self.coordinate,
        ))
    }
}

/// Takes the entry that is first to leave out of `open`, if there is one.
pub fn pop_best(open: &mut Vec<Node>) -> (popped: Option<Node>)
    ensures
        popped.is_none() <==> old(open)@.len() == 0,
        popped.is_none() ==> final(open)@ == old(open)@,
        popped matches Some(best) ==> {
            &&& exists|i: int|
                0 <= i < old(open)@.len() && best == old(open)@[i] && final(open)@ == old(
                    open,
                )@.remove(i)
            &&& forall|j: int| 0 <= j < old(open)@.len() ==> !pops_before(old(open)@[j], best)
        },
{
    if open.len() == 0 {
        return None;
    }
    let mut at: usize = 0;
    let mut i: usize = 1;
    while i < open.len()
        invariant
            at < i <= open.len(),
            forall|j: int| 0 <= j < i ==> !pops_before(open@[j], open@[at as int]),
        decreases open.len() - i,
    {
        if open[i].leaves_before(&open[at]) {
            at = i;
        }
        i += 1;
    }
    Some(open.remove(at))
}

/// Tells whether `cells` holds `c`.
pub fn contains_cell(cells: &[Coordinate], c: &Coordinate) -> (found: bool)
    ensures
        found == cells@.contains(*c),
{
    let mut i: usize = 0;
    while i < cells.len()
        invariant
            i <= cells.len(),
            forall|j: int| 0 <= j < i ==> cells@[j] != *c,
        decreases cells.len() - i,
    {
        if cells[i] == *c {
            return true;
        }
        i += 1;
    }
    false
}

/// Tells whether a segment of some snake of `board` lies on `c`.
pub fn cell_is_occupied(board: &Board, c: &Coordinate) -> (found: bool)
    ensures
        found == occupied(board@, *c),
{
    let mut i: usize = 0;
    while i < board.snakes.len()
        invariant
            i <= board.snakes.len(),
            forall|a: int, b: int|
                0 <= a < i && 0 <= b < board@.snakes[a].body.len()
                    ==> #[trigger] board@.snakes[a].body[b] != *c,
        decreases board.snakes.len() - i,
    {
        if contains_cell(board.snakes[i].body.as_slice(), c) {
            let ghost b = choose|b: int|
                0 <= b < board.snakes@[i as int].body@.len() && board.snakes@[i as int].body@[b]
                    == *c;
            assert(board@.snakes[i as int].body[b] == *c);
            return true;
        }
        assert(board@.snakes[i as int].body == board.snakes@[i as int].body@);
        i += 1;
    }
    false
}

/// What a search needs of a board, asked cell by cell, so that one search
/// serves every way of holding a board.
pub trait SearchableBoard {
    /// The board that is searched.
    spec fn board_of(&self) -> BoardView;

    /// The cells of the board that are one step from `c`.
    fn neighbors(&self, c: &Coordinate) -> (cells: Vec<Coordinate>)
        ensures
            forall|n: Coordinate| #[trigger]
                cells@.contains(n) <==> adjacent(*c, n) && on_board(self.board_of(), n),
    ;

    /// Tells whether `c` is a hazard cell.
    fn cell_is_hazard(&self, c: &Coordinate) -> (b: bool)
        ensures
            b == self.board_of().hazards.contains(*c),
    ;

    /// Tells whether food lies on `c`.
    fn cell_is_food(&self, c: &Coordinate) -> (b: bool)
        ensures
            b == self.board_of().food.contains(*c),
    ;

    /// Tells, for a cell of the board, whether a segment of some snake lies on it.
    fn cell_is_snake_body_piece(&self, c: &Coordinate) -> (b: bool)
        ensures
            on_board(self.board_of(), *c) ==> b == occupied(self.board_of(), *c),
    ;
}

/// What it costs to leave `c` in `game`.
pub fn cost_of_leaving<G: SearchableBoard>(game: &G, food_penalty: i32, c: &Coordinate) -> (cost:
    i64)
    ensures
        cost == step_cost(game.board_of(), food_penalty as int, *c),
{
    if game.cell_is_hazard(c) {
        HAZARD_PENALTY + NEIGHBOR_DISTANCE
    } else if game.cell_is_food(c) {
        NEIGHBOR_DISTANCE + food_penalty as i64
    } else {
        NEIGHBOR_DISTANCE
    }
}

/// Tells whether a search on `board` with `options` can be carried out.
pub fn can_search(board: &Board, options: &Option<APrimeOptions>) -> (ok: bool)
    ensures
        ok == search_fits(board@, food_penalty_of(*options)),
{
    let food_penalty: i32 = match options {
        Some(o) => o.food_penalty,
        None => 0,
    };
    if food_penalty < 0 {
        return false;
    }
    let width: u128 = board.width as u128;
    let height: u128 = board.height as u128;
    let dearest: u128 = food_penalty as u128 + 2;
    assert(width * height <= 0xffff_ffff * 0xffff_ffff) by (nonlinear_arith)
        requires
            0 <= width <= 0xffff_ffff,
            0 <= height <= 0xffff_ffff,
    ;
    let cells: u128 = width * height + 1;
    assert(cells * dearest <= 0xffff_fffe_0000_0002 * 0x8000_0001) by (nonlinear_arith)
        requires
            0 <= cells <= 0xffff_fffe_0000_0002,
            0 <= dearest <= 0x8000_0001,
    ;
    cells * dearest <= COST_LIMIT as u128
}

/// What a search found: the cheapest cost of a walk to a target, that
/// target, and for each cell reached the cell before it.
pub struct APrimeResult {
    pub best_cost: i64,
    pub paths_from: FxHashMap<u64, Option<Coordinate>>,
    pub best_target: Coordinate,
}

impl APrimeResult {
    /// True when this is the result of the search `q`: `best_target` is a
    /// target; a walk from the start to it costs `best_cost`, and no walk to
    /// a target costs less; and `paths_from` leads from every cell it files
    /// back to the start, one allowed step at a time, along a walk that
    /// costs no more than the `costs` noted for that cell.
    pub open spec fn is_result_of(&self, q: Quest, costs: Map<u64, i64>) -> bool {
        &&& q.targets.contains(self.best_target)
        &&& none_cheaper(q.board, q.targets, q.food_penalty, q.start, self.best_cost as int)
        &&& reached_at(q, self.best_target, self.best_cost as int)
        &&& known_ok(
            q,
            Progress {
                known: costs,
                preds: self.paths_from@,
                open: Seq::empty(),
                closed: Set::empty(),
            },
            COST_LIMIT + q.dearest_step(),
        )
        &&& costs.contains_key(cell_key(self.best_target))
        &&& costs[cell_key(self.best_target)] == self.best_cost
    }

    /// True when this is the result of the search `q`.
    pub open spec fn wf(&self, q: Quest) -> bool {
        exists|costs: Map<u64, i64>| self.is_result_of(q, costs)
    }
}

/// What a search returns: nothing where no walk leads to a target, and else
/// a result of that search.
pub open spec fn search_outcome_ok(q: Quest, r: Option<APrimeResult>) -> bool {
    match r {
        Some(found) => found.wf(q),
        None => forall|p: Seq<Coordinate>| !leads_to_target(q.board, q.targets, q.start, p),
    }
}

/// Looks at the neighbour `neighbor` of the cell `coordinate`: where the
/// search may step onto it, and by way of `coordinate` it costs less than
/// what is known of it, the lower cost and the way are noted, and the
/// neighbour is put on the open list.
fn relax<G: SearchableBoard>(
    game: &G,
    targets: &[Coordinate],
    coordinate: &Coordinate,
    neighbor: &Coordinate,
    tentative: i64,
    known_score: &mut FxHashMap<u64, i64>,
    paths_from: &mut FxHashMap<u64, Option<Coordinate>>,
    to_search: &mut Vec<Node>,
    Ghost(q): Ghost<Quest>,
    Ghost(closed): Ghost<Set<Coordinate>>,
    Ghost(limit): Ghost<int>,
)
    requires
        q.board == game.board_of(),
        q.targets == targets@,
        adjacent(*coordinate, *neighbor),
        on_board(q.board, *neighbor),
        expanding(
            q,
            Progress {
                known: old(known_score)@,
                preds: old(paths_from)@,
                open: old(to_search)@,
                closed,
            },
            limit,
            *coordinate,
            tentative as int,
        ),
    ensures
        expanding(
            q,
            Progress {
                known: final(known_score)@,
                preds: final(paths_from)@,
                open: final(to_search)@,
                closed,
            },
            limit,
            *coordinate,
            tentative as int,
        ),
        relaxed_towards(
            q,
            Progress {
                known: final(known_score)@,
                preds: final(paths_from)@,
                open: final(to_search)@,
                closed,
            },
            *coordinate,
            *neighbor,
            tentative as int,
        ),
        no_dearer(
            Progress {
                known: old(known_score)@,
                preds: old(paths_from)@,
                open: old(to_search)@,
                closed,
            },
            Progress {
                known: final(known_score)@,
                preds: final(paths_from)@,
                open: final(to_search)@,
                closed,
            },
        ),
        closed.contains(*coordinate) ==> final(known_score)@ == old(known_score)@,
        closed.contains(*coordinate) ==> final(paths_from)@ == old(paths_from)@,
        closed.contains(*coordinate) ==> final(to_search)@ == old(to_search)@,
{
    let ghost before = Progress {
        known: known_score@,
        preds: paths_from@,
        open: to_search@,
        closed,
    };
    if contains_cell(targets, neighbor) || !game.cell_is_snake_body_piece(neighbor) {
        assert(q.allowed(*coordinate, *neighbor));
        let known_there: i64 = fx_get(known_score, key_of(neighbor)).unwrap_or(i64::MAX);
        if tentative < known_there {
            proof {
                lemma_relax(q, before, limit, *coordinate, *neighbor, tentative as int);
                lemma_heuristic_at_target(*neighbor, q.targets);
            }
            let estimate: i64 = hueristic(neighbor, targets).unwrap_or(HEURISTIC_MAX);
            fx_insert(known_score, key_of(neighbor), tentative);
            fx_insert(paths_from, key_of(neighbor), Some(*coordinate));
            to_search.push(Node { coordinate: *neighbor, cost: tentative + estimate });
            proof {
                let after = after_relax(q, before, *coordinate, *neighbor, tentative as int);
                assert(to_search@ =~= after.open);
                assert(known_score@ == after.known);
                assert(paths_from@ == after.preds);
            }
        }
    }
}

/// Searches the board of `game` for the cheapest walk from `start` to one
/// of `targets`, the cell with the least cost and estimate first. The board
/// is seen through what `game` tells of its cells.
#[verifier::rlimit(50)]
pub fn a_prime_search<G: SearchableBoard>(
    game: &G,
    start: &Coordinate,
    targets: &[Coordinate],
    food_penalty: i32,
) -> (r: Option<APrimeResult>)
    requires
        search_fits(game.board_of(), food_penalty as int),
    ensures
        search_outcome_ok(quest(game.board_of(), *start, targets@, food_penalty as int), r),
{
    let ghost q = quest(game.board_of(), *start, targets@, food_penalty as int);
    let mut paths_from: FxHashMap<u64, Option<Coordinate>> = fx_new();
    if targets.len() == 0 {
        return None;
    }
    let mut to_search: Vec<Node> = Vec::new();
    let mut known_score: FxHashMap<u64, i64> = fx_new();
    to_search.push(Node { cost: 0, coordinate: *start });
    fx_insert(&mut known_score, key_of(start), 0);
    fx_insert(&mut paths_from, key_of(start), None);
    let ghost mut closed: Set<Coordinate> = Set::empty();
    let ghost mut limit: int = 0;
    proof {
        lemma_initial(q);
        assert(known_score@ =~= initial(q).known);
        assert(paths_from@ =~= initial(q).preds);
        assert(to_search@ =~= initial(q).open);
        assert(q.dearest_step() * 0 == 0) by (nonlinear_arith);
    }
    loop
        invariant
            q == quest(game.board_of(), *start, targets@, food_penalty as int),
            search_fits(q.board, q.food_penalty),
            search_ok(
                q,
                Progress { known: known_score@, preds: paths_from@, open: to_search@, closed },
                limit,
                None,
            ),
            limit == q.dearest_step() * closed.len(),
            0 <= limit <= COST_LIMIT,
            closed.len() <= q.cells(),
        decreases q.cells() - closed.len(), to_search.len(),
    {
        let ghost s = Progress {
            known: known_score@,
            preds: paths_from@,
            open: to_search@,
            closed,
        };
        let node: Node = match pop_best(&mut to_search) {
            Some(node) => node,
            None => {
                proof {
                    lemma_exhausted(q, s, limit);
                }
                return None;
            },
        };
        let ghost i = choose|i: int|
            0 <= i < s.open.len() && node == s.open[i] && to_search@ == s.open.remove(i);
        let ghost s1 = after_pop(s, i);
        proof {
            assert forall|j: int| 0 <= j < s.open.len() implies s.open[i].cost <= (
            #[trigger] s.open[j]).cost by {
                assert(!pops_before(s.open[j], node));
            }
            lemma_after_pop(q, s, limit, i);
        }
        let coordinate: Coordinate = node.coordinate;
        if contains_cell(targets, &coordinate) {
            proof {
                lemma_raise_limit(q, s1, limit, COST_LIMIT + q.dearest_step(), Some(coordinate));
                let done = Progress {
                    known: known_score@,
                    preds: paths_from@,
                    open: Seq::empty(),
                    closed: Set::empty(),
                };
                assert(known_ok(q, done, COST_LIMIT + q.dearest_step()));
            }
            let found = APrimeResult { best_cost: node.cost, paths_from, best_target: coordinate };
            proof {
                assert(found.is_result_of(q, known_score@));
            }
            return Some(found);
        }
        let neighbor_distance: i64 = cost_of_leaving(game, food_penalty, &coordinate);
        let known_here: i64 = fx_get(&known_score, key_of(&coordinate)).unwrap_or(i64::MAX);
        proof {
            lemma_step_cost_bounds(q.board, q.food_penalty, coordinate);
        }
        let tentative: i64 = known_here + neighbor_distance;
        let neighbors: Vec<Coordinate> = game.neighbors(&coordinate);
        let ghost higher = limit + q.dearest_step();
        proof {
            lemma_raise_limit(q, s1, limit, higher, Some(coordinate));
        }
        let mut k: usize = 0;
        while k < neighbors.len()
            invariant
                q == quest(game.board_of(), *start, targets@, food_penalty as int),
                forall|n: Coordinate| #[trigger]
                    neighbors@.contains(n) <==> adjacent(coordinate, n) && on_board(q.board, n),
                k <= neighbors.len(),
                expanding(
                    q,
                    Progress { known: known_score@, preds: paths_from@, open: to_search@, closed },
                    higher,
                    coordinate,
                    tentative as int,
                ),
                closed.contains(coordinate) ==> known_score@ == s1.known && paths_from@
                    == s1.preds && to_search@ == s1.open,
                forall|m: int|
                    0 <= m < k ==> relaxed_towards(
                        q,
                        Progress {
                            known: known_score@,
                            preds: paths_from@,
                            open: to_search@,
                            closed,
                        },
                        coordinate,
                        #[trigger] neighbors@[m],
                        tentative as int,
                    ),
            decreases neighbors.len() - k,
        {
            let neighbor: Coordinate = neighbors[k];
            assert(neighbors@.contains(neighbor));
            let ghost sk = Progress {
                known: known_score@,
                preds: paths_from@,
                open: to_search@,
                closed,
            };
            relax(
                game,
                targets,
                &coordinate,
                &neighbor,
                tentative,
                &mut known_score,
                &mut paths_from,
                &mut to_search,
                Ghost(q),
                Ghost(closed),
                Ghost(higher),
            );
            proof {
                let after = Progress {
                    known: known_score@,
                    preds: paths_from@,
                    open: to_search@,
                    closed,
                };
                assert forall|m: int| 0 <= m < k + 1 implies relaxed_towards(
                    q,
                    after,
                    coordinate,
                    #[trigger] neighbors@[m],
                    tentative as int,
                ) by {
                    if m < k {
                        assert(relaxed_towards(q, sk, coordinate, neighbors@[m], tentative as int));
                        if q.allowed(coordinate, neighbors@[m]) {
                            assert(sk.has(neighbors@[m]));
                        }
                    }
                }
            }
            k += 1;
        }
        proof {
            let sk = Progress { known: known_score@, preds: paths_from@, open: to_search@, closed };
            assert(relaxed(q, sk, coordinate)) by {
                assert forall|n: Coordinate| #[trigger] q.allowed(coordinate, n) implies sk.has(n)
                    && sk.g(n) <= sk.g(coordinate) + q.leaving(coordinate) by {
                    assert(neighbors@.contains(n));
                    let m = choose|m: int| 0 <= m < neighbors@.len() && neighbors@[m] == n;
                    assert(relaxed_towards(q, sk, coordinate, neighbors@[m], tentative as int));
                }
            }
            if closed.contains(coordinate) {
                lemma_close(q, s1, limit, coordinate);
                assert(closed.insert(coordinate) =~= closed);
            } else {
                lemma_close(q, sk, higher, coordinate);
                assert forall|c: Coordinate| closed.insert(coordinate).contains(c) implies c
                    == q.start || on_board(q.board, c) by {
                    assert(sk.has(c));
                }
                lemma_cell_count(q, closed.insert(coordinate));
                assert(q.dearest_step() * (closed.len() + 1) == q.dearest_step() * closed.len()
                    + q.dearest_step()) by (nonlinear_arith);
                assert(q.dearest_step() * (closed.len() + 1) <= q.cells() * q.dearest_step())
                    by (nonlinear_arith)
                    requires
                        closed.len() + 1 <= q.cells(),
                        0 <= q.dearest_step(),
                ;
                limit = higher;
            }
            closed = closed.insert(coordinate);
        }
    }
}

/// Walks back from the target of `found` to the start and returns the walk, start first.
fn walk_back(found: &APrimeResult, Ghost(q): Ghost<Quest>) -> (path: Vec<Coordinate>)
    requires
        q.wf(),
        found.wf(q),
    ensures
        is_shortest_path(q.board, q.targets, q.food_penalty, q.start, path@),
        path@.last() == found.best_target,
        path_cost(q.board, q.food_penalty, path@) == found.best_cost,
{
    let ghost costs = choose|costs: Map<u64, i64>| found.is_result_of(q, costs);
    let ghost s = Progress {
        known: costs,
        preds: found.paths_from@,
        open: Seq::empty(),
        closed: Set::empty(),
    };
    let ghost bound = COST_LIMIT + q.dearest_step();
    let mut backwards: Vec<Coordinate> = Vec::new();
    let mut current: Option<Coordinate> = Some(found.best_target);
    let ghost mut tail: Seq<Coordinate> = Seq::empty();
    while current.is_some()
        invariant
            q.wf(),
            known_ok(q, s, bound),
            s.preds == found.paths_from@,
            s.has(found.best_target),
            s.g(found.best_target) == found.best_cost,
            traced(q, s, tail, current, found.best_target, found.best_cost as int),
            tail.len() == backwards@.len(),
            forall|k: int| 0 <= k < tail.len() ==> backwards@[k] == tail[tail.len() - 1 - k],
        decreases
                (match current {
                    Some(c) => s.g(c) + 1,
                    None => 0,
                }),
    {
        let c: Coordinate = current.unwrap();
        proof {
            lemma_trace_step(q, s, bound, tail, c, found.best_target, found.best_cost as int);
        }
        let before: Option<Option<Coordinate>> = fx_get(&found.paths_from, key_of(&c));
        current = before.unwrap();
        backwards.push(c);
        proof {
            let longer = seq![c] + tail;
            assert forall|k: int| 0 <= k < longer.len() implies backwards@[k] == longer[longer.len()
                - 1 - k] by {
                if k < tail.len() {
                    assert(longer[longer.len() - 1 - k] == tail[tail.len() - 1 - k]);
                }
            }
            tail = longer;
        }
    }
    let mut path: Vec<Coordinate> = Vec::new();
    let mut i: usize = backwards.len();
    while i > 0
        invariant
            i <= backwards@.len(),
            tail.len() == backwards@.len(),
            forall|k: int| 0 <= k < tail.len() ==> backwards@[k] == tail[tail.len() - 1 - k],
            path@.len() == backwards@.len() - i,
            forall|k: int| 0 <= k < path@.len() ==> path@[k] == tail[k],
        decreases i,
    {
        i -= 1;
        path.push(backwards[i]);
    }
    proof {
        assert(path@ =~= tail);
        assert(leads_to_target(q.board, q.targets, q.start, tail));
    }
    path
}

/// A game whose board can be searched for the cheapest way from a cell to
/// one of a set of cells.
pub trait APrimeCalculable: SearchableBoard {
    /// The search itself: nothing where no walk leads from `start` to one
    /// of `targets`, and else the cheapest cost, the target reached, and the
    /// cell before each cell reached.
    fn a_prime_inner(
        &self,
        start: &Coordinate,
        targets: &[Coordinate],
        options: Option<APrimeOptions>,
    ) -> (r: Option<APrimeResult>)
        requires
            search_fits(self.board_of(), food_penalty_of(options)),
        ensures
            search_outcome_ok(
                quest(self.board_of(), *start, targets@, food_penalty_of(options)),
                r,
            ),
    ;

    /// The cost of a cheapest walk from `start` to one of `targets`, and
    /// nothing where there is no such walk. From a target it is zero.
    fn shortest_distance(
        &self,
        start: &Coordinate,
        targets: &[Coordinate],
        options: Option<APrimeOptions>,
    ) -> (d: Option<i64>)
        requires
            search_fits(self.board_of(), food_penalty_of(options)),
        ensures
            d.is_none() <==> !reachable(self.board_of(), targets@, *start),
            d matches Some(v) ==> is_shortest_distance(
                self.board_of(),
                targets@,
                food_penalty_of(options),
                *start,
                v as int,
            ) && shortest_distance_spec(
                self.board_of(),
                targets@,
                food_penalty_of(options),
                *start,
            ) == Some(v as int),
            targets@.contains(*start) ==> d == Some(0i64),
    {
        let ghost q = quest(self.board_of(), *start, targets@, food_penalty_of(options));
        let found: Option<APrimeResult> = self.a_prime_inner(start, targets, options);
        proof {
            if targets@.contains(*start) {
                let here = seq![*start];
                assert(leads_to_target(q.board, q.targets, q.start, here));
                assert(path_cost(q.board, q.food_penalty, here) == 0);
            }
        }
        match found {
            Some(r) => {
                proof {
                    let p = choose|p: Seq<Coordinate>| #[trigger]
                        q.route(r.best_target, p) && q.cost(p) == r.best_cost;
                    assert(leads_to_target(q.board, q.targets, q.start, p));
                    assert(reachable(q.board, q.targets, q.start));
                    lemma_path_cost_at_least_steps(q.board, q.food_penalty, p);
                    lemma_shortest_distance_unique(
                        q.board,
                        q.targets,
                        q.food_penalty,
                        q.start,
                        r.best_cost as int,
                    );
                }
                Some(r.best_cost)
            },
            None => {
                proof {
                    assert(!reachable(q.board, q.targets, q.start));
                }
                None
            },
        }
    }

    /// A cheapest walk from `start` to one of `targets`, both ends
    /// included, and the empty walk where there is none.
    fn shortest_path(
        &self,
        start: &Coordinate,
        targets: &[Coordinate],
        options: Option<APrimeOptions>,
    ) -> (path: Vec<Coordinate>)
        requires
            search_fits(self.board_of(), food_penalty_of(options)),
        ensures
            path@.len() == 0 <==> !reachable(self.board_of(), targets@, *start),
            path@.len() > 0 ==> is_shortest_path(
                self.board_of(),
                targets@,
                food_penalty_of(options),
                *start,
                path@,
            ),
    {
        let ghost q = quest(self.board_of(), *start, targets@, food_penalty_of(options));
        let found: Option<APrimeResult> = self.a_prime_inner(start, targets, options);
        match found {
            Some(r) => {
                let path: Vec<Coordinate> = walk_back(&r, Ghost(q));
                proof {
                    assert(leads_to_target(q.board, q.targets, q.start, path@));
                    assert(reachable(q.board, q.targets, q.start));
                }
                path
            },
            None => {
                proof {
                    assert(!reachable(q.board, q.targets, q.start));
                }
                Vec::new()
            },
        }
    }
}

/// What can be asked of a board on top of its cheapest walks: the first step of one.
pub trait APrimeNextDirection: APrimeCalculable {
    /// The direction of the first step of a cheapest walk from `start` to
    /// one of `targets`; nothing where there is no such walk, or where
    /// `start` is a target.
    fn shortest_path_next_direction(
        &self,
        start: &Coordinate,
        targets: &[Coordinate],
        options: Option<APrimeOptions>,
    ) -> (next: Option<Direction>)
        requires
            search_fits(self.board_of(), food_penalty_of(options)),
        ensures
            is_next_direction(
                self.board_of(),
                targets@,
                food_penalty_of(options),
                *start,
                next,
            ),
    {
        let ghost board = self.board_of();
        let ghost fp = food_penalty_of(options);
        let path: Vec<Coordinate> = self.shortest_path(start, targets, options);
        proof {
            if path@.len() > 0 {
                lemma_path_cost_at_least_steps(board, fp, path@);
                if targets@.contains(*start) {
                    let here = seq![*start];
                    assert(leads_to_target(board, targets@, *start, here));
                    assert(path_cost(board, fp, here) == 0);
                }
            }
        }
        if path.len() < 2 {
            return None;
        }
        let second: Coordinate = path[1];
        proof {
            assert(step_allowed(board, targets@, path@[0], path@[0int + 1]));
        }
        let start_vec: (i64, i64) = position_to_vector(*start);
        let step: (i64, i64) = position_to_vector(position_sub_vec(second, start_vec));
        Some(move_from_vector(step.0, step.1))
    }
}

impl SearchableBoard for Board {
    open spec fn board_of(&self) -> BoardView {
        self@
    }

    fn neighbors(&self, c: &Coordinate) -> (cells: Vec<Coordinate>) {
        let moves: Vec<(Direction, Coordinate)> = c.possbile_moves(self);
        let mut cells: Vec<Coordinate> = Vec::new();
        let mut i: usize = 0;
        while i < moves.len()
            invariant
                i <= moves.len(),
                cells@.len() == i,
                forall|k: int| 0 <= k < i ==> cells@[k] == (#[trigger] moves@[k]).1,
            decreases moves.len() - i,
        {
            cells.push(moves[i].1);
            i += 1;
        }
        proof {
            lemma_neighbors(self@, *c);
            assert forall|n: Coordinate| cells@.contains(n) implies adjacent(*c, n) && on_board(
                self@,
                n,
            ) by {
                let k = choose|k: int| 0 <= k < cells@.len() && cells@[k] == n;
                assert(moves@[k].1 == n);
            }
            assert forall|n: Coordinate|
                adjacent(*c, n) && on_board(self@, n) implies cells@.contains(n) by {
                let k = choose|k: int| 0 <= k < moves@.len() && (#[trigger] moves@[k]).1 == n;
                assert(cells@[k] == n);
            }
        }
        cells
    }

    fn cell_is_hazard(&self, c: &Coordinate) -> (b: bool) {
        contains_cell(self.hazards.as_slice(), c)
    }

    fn cell_is_food(&self, c: &Coordinate) -> (b: bool) {
        contains_cell(self.food.as_slice(), c)
    }

    fn cell_is_snake_body_piece(&self, c: &Coordinate) -> (b: bool) {
        cell_is_occupied(self, c)
    }
}

impl APrimeCalculable for Board {
    fn a_prime_inner(
        &self,
        start: &Coordinate,
        targets: &[Coordinate],
        options: Option<APrimeOptions>,
    ) -> (r: Option<APrimeResult>) {
        let food_penalty: i32 = match options {
            Some(o) => o.food_penalty,
            None => 0,
        };
        a_prime_search(self, start, targets, food_penalty)
    }
}

impl APrimeNextDirection for Board {

}

impl SearchableBoard for GameState {
    open spec fn board_of(&self) -> BoardView {
        self@.board
    }

    fn neighbors(&self, c: &Coordinate) -> (cells: Vec<Coordinate>) {
        self.board.neighbors(c)
    }

    fn cell_is_hazard(&self, c: &Coordinate) -> (b: bool) {
        self.board.cell_is_hazard(c)
    }

    fn cell_is_food(&self, c: &Coordinate) -> (b: bool) {
        self.board.cell_is_food(c)
    }

    fn cell_is_snake_body_piece(&self, c: &Coordinate) -> (b: bool) {
        self.board.cell_is_snake_body_piece(c)
    }
}

impl APrimeCalculable for GameState {
    fn a_prime_inner(
        &self,
        start: &Coordinate,
        targets: &[Coordinate],
        options: Option<APrimeOptions>,
    ) -> (r: Option<APrimeResult>) {
        let food_penalty: i32 = match options {
            Some(o) => o.food_penalty,
            None => 0,
        };
        a_prime_search(self, start, targets, food_penalty)
    }
}

impl APrimeNextDirection for GameState {

}

} // verus!
