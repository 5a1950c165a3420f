//! The hermit: a snake that circles behind its own tail and leaves the
//! circle only for food that it can reach and come back from.

use vstd::prelude::*;
use crate::a_prime::{
    can_search, cell_is_occupied, contains_cell, dist_between, APrimeCalculable,
    APrimeNextDirection,
};
use crate::api::{AboutMe, BattlesnakeAI, MoveOutput};
use crate::path_model::{
    dist_spec, is_next_direction, is_shortest_path, occupied, reachable, search_fits,
    shortest_distance_spec,
};
use crate::types::{
    coord_lt, copy_cells, direction_name, possible_moves, snakes_view, Battlesnake,
    BattlesnakeView, Board, BoardView, Coordinate, Direction, GameError, GameState,
    GameStateView,
};

verus! {

/// What the way back from a meal counts as where there is none.
pub const UNREACHABLE_COST: i64 = 5000;

/// What a meal counts as that the snake would starve on the way to.
pub const STARVING_COST: i64 = 6666;

/// Before this turn the snake heads for the nearest food, whatever its circle.
pub const EARLY_TURNS: u64 = 3;

/// Tells whether no cell occurs twice in `cells`.
pub fn has_unique_elements(cells: &[Coordinate]) -> (unique: bool)
    ensures
        unique == cells@.no_duplicates(),
{
    let mut i: usize = 0;
    while i < cells.len()
        invariant
            i <= cells.len(),
            forall|a: int, b: int| 0 <= a < b < cells@.len() && b < i ==> cells@[a] != cells@[b],
        decreases cells.len() - i,
    {
        let mut j: usize = 0;
        while j < i
            invariant
                j <= i < cells.len(),
                forall|a: int| 0 <= a < j ==> cells@[a] != cells@[i as int],
            decreases i - j,
        {
            if cells[j] == cells[i] {
                return false;
            }
            j += 1;
        }
        i += 1;
    }
    assert forall|a: int, b: int|
        0 <= a < cells@.len() && 0 <= b < cells@.len() && a != b implies cells@[a] != cells@[b] by {
        if a < b {
            assert(cells@[a] != cells@[b]);
        } else {
            assert(cells@[b] != cells@[a]);
        }
    }
    true
}

/// True when `i` is the first position in `body` of a cell that is as near to `food` as any.
pub open spec fn is_closest_part(body: Seq<Coordinate>, food: Coordinate, i: int) -> bool {
    &&& 0 <= i < body.len()
    &&& forall|j: int|
        0 <= j < body.len() ==> dist_spec(food, body[i]) <= dist_spec(food, #[trigger] body[j])
    &&& forall|j: int| 0 <= j < i ==> dist_spec(food, body[i]) < dist_spec(food, #[trigger] body[j])
}

/// The first position in `body` of a cell that is as near to `food` as any.
pub open spec fn closest_index(body: Seq<Coordinate>, food: Coordinate) -> int {
    choose|i: int| is_closest_part(body, food, i)
}

/// The distance from `food` to the nearest cell of `body`.
pub open spec fn closest_dist(body: Seq<Coordinate>, food: Coordinate) -> int {
    dist_spec(food, body[closest_index(body, food)])
}

/// There is one closest part only.
pub proof fn lemma_closest_unique(body: Seq<Coordinate>, food: Coordinate, i: int)
    requires
        is_closest_part(body, food, i),
    ensures
        closest_index(body, food) == i,
{
    let k = closest_index(body, food);
    assert(is_closest_part(body, food, k));
    if k < i {
        assert(dist_spec(food, body[i]) < dist_spec(food, body[k]));
        assert(dist_spec(food, body[k]) <= dist_spec(food, body[i]));
    }
    if i < k {
        assert(dist_spec(food, body[k]) < dist_spec(food, body[i]));
        assert(dist_spec(food, body[i]) <= dist_spec(food, body[k]));
    }
}

/// The cell of `body` nearest to `food`, the first of several: its position and its distance.
pub fn closest_part(body: &[Coordinate], food: &Coordinate) -> (found: (usize, i64))
    requires
        body@.len() > 0,
    ensures
        is_closest_part(body@, *food, found.0 as int),
        found.0 == closest_index(body@, *food),
        found.1 == closest_dist(body@, *food),
{
    let mut at: usize = 0;
    let mut least: i64 = dist_between(food, &body[0]);
    let mut i: usize = 1;
    while i < body.len()
        invariant
            at < i <= body.len(),
            least == dist_spec(*food, body@[at as int]),
            forall|j: int| 0 <= j < i ==> least <= dist_spec(*food, #[trigger] body@[j]),
            forall|j: int| 0 <= j < at ==> least < dist_spec(*food, #[trigger] body@[j]),
        decreases body.len() - i,
    {
        let d: i64 = dist_between(food, &body[i]);
        if d < least {
            at = i;
            least = d;
        }
        i += 1;
    }
    proof {
        lemma_closest_unique(body@, *food, at as int);
    }
    (at, least)
}

/// True when `cost` is the least distance from a cell of `food` to its nearest cell of `body`.
pub open spec fn is_nearest_food_cost(
    food: Seq<Coordinate>,
    body: Seq<Coordinate>,
    cost: int,
) -> bool {
    &&& exists|k: int| 0 <= k < food.len() && closest_dist(body, #[trigger] food[k]) == cost
    &&& forall|k: int| 0 <= k < food.len() ==> cost <= closest_dist(body, #[trigger] food[k])
}

/// The least distance from a cell of `food` to its nearest cell of `body`.
pub fn nearest_food_cost(food: &[Coordinate], body: &[Coordinate]) -> (cost: i64)
    requires
        food@.len() > 0,
        body@.len() > 0,
    ensures
        is_nearest_food_cost(food@, body@, cost as int),
{
    let mut least: i64 = closest_part(body, &food[0]).1;
    let mut k: usize = 1;
    while k < food.len()
        invariant
            1 <= k <= food.len(),
            body@.len() > 0,
            exists|m: int| 0 <= m < k && closest_dist(body@, #[trigger] food@[m]) == least,
            forall|m: int| 0 <= m < k ==> least <= closest_dist(body@, #[trigger] food@[m]),
        decreases food.len() - k,
    {
        let d: i64 = closest_part(body, &food[k]).1;
        if d < least {
            least = d;
        }
        k += 1;
    }
    least
}

/// `body`, followed by those of the first `k` cells of `path` that were not yet in it.
pub open spec fn extended_by(body: Seq<Coordinate>, path: Seq<Coordinate>, k: int) -> Seq<
    Coordinate,
>
    decreases k,
{
    if k <= 0 {
        body
    } else {
        let so_far = extended_by(body, path, k - 1);
        if so_far.contains(path[k - 1]) {
            so_far
        } else {
            so_far.push(path[k - 1])
        }
    }
}

/// True when `path` is what a search for the way from the head of `you`
/// to its tail may return: a cheapest walk, or the empty walk where there is none.
pub open spec fn is_circle_path(g: GameStateView, path: Seq<Coordinate>) -> bool {
    let targets = seq![g.you.body.last()];
    &&& path.len() == 0 <==> !reachable(g.board, targets, g.you.body[0])
    &&& path.len() > 0 ==> is_shortest_path(g.board, targets, 0, g.you.body[0], path)
}

/// True when `body` is the circle of `you`: its body, closed by the
/// cells of a cheapest walk from its head to its tail.
pub open spec fn circle_ok(g: GameStateView, body: Seq<Coordinate>) -> bool {
    exists|path: Seq<Coordinate>| #[trigger]
        is_circle_path(g, path) && body == extended_by(g.you.body, path, path.len() as int)
}

/// Closing a circle keeps the body at its front.
pub proof fn lemma_extended_by(body: Seq<Coordinate>, path: Seq<Coordinate>, k: int)
    ensures
        extended_by(body, path, k).len() >= body.len(),
        forall|i: int| 0 <= i < body.len() ==> extended_by(body, path, k)[i] == body[i],
    decreases k,
{
    if k > 0 {
        lemma_extended_by(body, path, k - 1);
    }
}

/// The circle of `you`: its body, closed by the cells of a cheapest walk
/// from its head to its tail that are not part of it yet.
pub fn circle_body(state: &GameState) -> (body: Vec<Coordinate>)
    requires
        state@.you.body.len() > 0,
        search_fits(state@.board, 0),
    ensures
        circle_ok(state@, body@),
        body@.len() >= state@.you.body.len(),
        forall|i: int| 0 <= i < state@.you.body.len() ==> body@[i] == state@.you.body[i],
{
    let mut body: Vec<Coordinate> = copy_cells(state.you.body.as_slice());
    let head: Coordinate = body[0];
    let targets: Vec<Coordinate> = vec![body[body.len() - 1]];
    assert(targets@ =~= seq![state@.you.body.last()]);
    let path: Vec<Coordinate> = state.board.shortest_path(&head, targets.as_slice(), None);
    assert(is_circle_path(state@, path@));
    let mut i: usize = 0;
    while i < path.len()
        invariant
            i <= path.len(),
            body@ == extended_by(state@.you.body, path@, i as int),
        decreases path.len() - i,
    {
        if !contains_cell(body.as_slice(), &path[i]) {
            body.push(path[i]);
        }
        i += 1;
    }
    proof {
        lemma_extended_by(state@.you.body, path@, path@.len() as int);
    }
    body
}

/// The board with `you` as its only snake.
pub open spec fn lonely_board(g: GameStateView) -> BoardView {
    BoardView { snakes: seq![g.you], ..g.board }
}

/// The board of `state` with `you` as its only snake.
pub fn lonely_board_of(state: &GameState) -> (board: Board)
    ensures
        board@ == lonely_board(state@),
{
    let snakes: Vec<Battlesnake> = vec![state.you.copy()];
    let board = Board {
        height: state.board.height,
        width: state.board.width,
        food: copy_cells(state.board.food.as_slice()),
        hazards: copy_cells(state.board.hazards.as_slice()),
        snakes,
    };
    assert(snakes_view(board.snakes@) =~= seq![state@.you]);
    board
}

/// What the meal `food` would cost the snake whose circle is `body`, when
/// the nearest food is `best_cost` away from the circle: the way along the
/// circle to the cell nearest to the food, the way to the food, and the way
/// back from the food to the cell that would then be the tail, or
/// [`UNREACHABLE_COST`] where there is none. A meal that the snake's health
/// does not last for costs [`STARVING_COST`].
pub open spec fn meal_cost(
    g: GameStateView,
    body: Seq<Coordinate>,
    food: Coordinate,
    best_cost: int,
) -> int {
    let closest = closest_index(body, food);
    let tail_index = if closest == 0 {
        g.you.body.len() - 1
    } else {
        closest - 1
    };
    let back = match shortest_distance_spec(lonely_board(g), seq![body[tail_index]], 0, food) {
        Some(d) => d,
        None => UNREACHABLE_COST as int,
    };
    let to_closest = if closest == 0 {
        0
    } else {
        body.len() - closest
    };
    let to_food = to_closest + best_cost;
    if g.you.health >= to_food {
        to_food + back
    } else {
        STARVING_COST as int
    }
}

/// What the meal `food` would cost the snake `you` of `state`.
pub fn cost_of_meal(
    state: &GameState,
    lonely: &Board,
    body: &[Coordinate],
    food: &Coordinate,
    best_cost: i64,
) -> (cost: i128)
    requires
        lonely@ == lonely_board(state@),
        search_fits(state@.board, 0),
        0 < state@.you.body.len() <= body@.len(),
    ensures
        cost == meal_cost(state@, body@, *food, best_cost as int),
{
    let closest: usize = closest_part(body, food).0;
    let tail_index: usize = if closest == 0 {
        state.you.body.len() - 1
    } else {
        closest - 1
    };
    let targets: Vec<Coordinate> = vec![body[tail_index]];
    assert(targets@ =~= seq![body@[tail_index as int]]);
    let back: i64 = match lonely.shortest_distance(food, targets.as_slice(), None) {
        Some(d) => d,
        None => UNREACHABLE_COST,
    };
    let to_closest: i128 = if closest == 0 {
        0
    } else {
        (body.len() - closest) as i128
    };
    let to_food: i128 = to_closest + best_cost as i128;
    if state.you.health as i128 >= to_food {
        to_food + back as i128
    } else {
        STARVING_COST as i128
    }
}

/// The order in which meals are preferred: the cheaper first, and of two
/// that cost the same the one whose cell comes first.
pub open spec fn meal_before(a: (int, Coordinate), b: (int, Coordinate)) -> bool {
    a.0 < b.0 || (a.0 == b.0 && coord_lt(a.1, b.1))
}

/// The cost of the `m`-th food of the board as a meal, with its cell.
pub open spec fn meal_key(g: GameStateView, body: Seq<Coordinate>, best_cost: int, m: int) -> (
    int,
    Coordinate,
) {
    (meal_cost(g, body, g.board.food[m], best_cost), g.board.food[m])
}

/// True when the `k`-th food of the board is the meal to go for: it is
/// `best_cost` away from the circle `body`, no food as near is preferred to
/// it, and it is the first such food in the list.
pub open spec fn is_chosen_meal(
    g: GameStateView,
    body: Seq<Coordinate>,
    best_cost: int,
    k: int,
) -> bool {
    let food = g.board.food;
    &&& 0 <= k < food.len()
    &&& closest_dist(body, food[k]) == best_cost
    &&& forall|m: int|
        0 <= m < food.len() && closest_dist(body, #[trigger] food[m]) == best_cost ==> !meal_before(
            meal_key(g, body, best_cost, m),
            meal_key(g, body, best_cost, k),
        )
    &&& forall|m: int|
        0 <= m < k && closest_dist(body, #[trigger] food[m]) == best_cost ==> meal_before(
            meal_key(g, body, best_cost, k),
            meal_key(g, body, best_cost, m),
        )
}

/// The position in the food list of the meal to go for.
#[verifier::rlimit(50)]
pub fn choose_meal(state: &GameState, lonely: &Board, body: &[Coordinate], best_cost: i64) -> (k:
    usize)
    requires
        lonely@ == lonely_board(state@),
        search_fits(state@.board, 0),
        0 < state@.you.body.len() <= body@.len(),
        is_nearest_food_cost(state@.board.food, body@, best_cost as int),
    ensures
        is_chosen_meal(state@, body@, best_cost as int, k as int),
{
    let ghost g = state@;
    let ghost b = body@;
    let ghost c = best_cost as int;
    let mut chosen: Option<(usize, i128)> = None;
    let mut m: usize = 0;
    while m < state.board.food.len()
        invariant
            g == state@,
            b == body@,
            c == best_cost as int,
            lonely@ == lonely_board(g),
            search_fits(g.board, 0),
            0 < g.you.body.len() <= b.len(),
            m <= state.board.food.len(),
            chosen.is_none() ==> forall|j: int|
                0 <= j < m ==> closest_dist(b, #[trigger] g.board.food[j]) != c,
            chosen matches Some((k, cost)) ==> {
                &&& k < m
                &&& closest_dist(b, g.board.food[k as int]) == c
                &&& cost == meal_cost(g, b, g.board.food[k as int], c)
                &&& forall|j: int|
                    0 <= j < m && closest_dist(b, #[trigger] g.board.food[j]) == c ==> !meal_before(
                        meal_key(g, b, c, j),
                        meal_key(g, b, c, k as int),
                    )
                &&& forall|j: int|
                    0 <= j < k && closest_dist(b, #[trigger] g.board.food[j]) == c ==> meal_before(
                        meal_key(g, b, c, k as int),
                        meal_key(g, b, c, j),
                    )
            },
        decreases state.board.food.len() - m,
    {
        let food: Coordinate = state.board.food[m];
        if closest_part(body, &food).1 == best_cost {
            let cost: i128 = cost_of_meal(state, lonely, body, &food, best_cost);
            let better: bool = match chosen {
                None => true,
                Some((k, least)) => cost < least || (cost == least && food.precedes(
                    &state.board.food[k],
                )),
            };
            if better {
                chosen = Some((m, cost));
            }
        }
        m += 1;
    }
    match chosen {
        Some((k, _)) => k,
        None => {
            proof {
                let j = choose|j: int|
                    0 <= j < g.board.food.len() && closest_dist(b, #[trigger] g.board.food[j]) == c;
                assert(closest_dist(b, g.board.food[j]) != c);
            }
            0
        },
    }
}

/// The number of body segments of the first `k` of `snakes`.
pub open spec fn filled_cells(snakes: Seq<BattlesnakeView>, k: int) -> int
    decreases k,
{
    if k <= 0 {
        0
    } else {
        filled_cells(snakes, k - 1) + snakes[k - 1].body.len()
    }
}

/// True when the snakes fill at least 95 of every 100 cells of the board.
pub open spec fn nearly_full(board: BoardView) -> bool {
    100 * filled_cells(board.snakes, board.snakes.len() as int) >= 95 * (board.width
        * board.height)
}

/// More snakes fill no fewer cells.
pub proof fn lemma_filled_cells_grow(snakes: Seq<BattlesnakeView>, k: int, n: int)
    requires
        0 <= k <= n,
    ensures
        0 <= filled_cells(snakes, k) <= filled_cells(snakes, n),
    decreases n - k,
{
    if k < n {
        lemma_filled_cells_grow(snakes, k, n - 1);
    } else {
        lemma_filled_cells_grow_from_zero(snakes, k);
    }
}

/// No number of snakes fills fewer than no cells.
pub proof fn lemma_filled_cells_grow_from_zero(snakes: Seq<BattlesnakeView>, k: int)
    ensures
        0 <= filled_cells(snakes, k),
    decreases k,
{
    if k > 0 {
        lemma_filled_cells_grow_from_zero(snakes, k - 1);
    }
}

/// Tells whether the snakes fill at least 95 of every 100 cells of `board`.
pub fn board_nearly_full(board: &Board) -> (full: bool)
    ensures
        full == nearly_full(board@),
{
    let width: u128 = board.width as u128;
    let height: u128 = board.height as u128;
    assert(width * height <= 0xffff_ffff * 0xffff_ffff) by (nonlinear_arith)
        requires
            0 <= width <= 0xffff_ffff,
            0 <= height <= 0xffff_ffff,
    ;
    let area: u128 = width * height;
    let needed: u128 = 95 * area;
    if needed == 0 {
        proof {
            lemma_filled_cells_grow_from_zero(board@.snakes, board@.snakes.len() as int);
        }
        return true;
    }
    let mut filled: u128 = 0;
    let mut i: usize = 0;
    while i < board.snakes.len()
        invariant
            i <= board.snakes.len(),
            filled == filled_cells(board@.snakes, i as int),
            100 * filled < needed,
            needed == 95 * (board.width * board.height),
            needed <= 95 * 0xffff_ffff * 0xffff_ffff,
        decreases board.snakes.len() - i,
    {
        assert(board@.snakes[i as int].body.len() == board.snakes@[i as int].body@.len());
        filled = filled + board.snakes[i].body.len() as u128;
        i += 1;
        if 100 * filled >= needed {
            proof {
                lemma_filled_cells_grow(board@.snakes, i as int, board@.snakes.len() as int);
            }
            return true;
        }
    }
    false
}

/// Those of the first `k` cells of `moves` that no snake lies on.
pub open spec fn free_cells(
    board: BoardView,
    moves: Seq<(Direction, Coordinate)>,
    k: int,
) -> Seq<Coordinate>
    decreases k,
{
    if k <= 0 {
        Seq::empty()
    } else if occupied(board, moves[k - 1].1) {
        free_cells(board, moves, k - 1)
    } else {
        free_cells(board, moves, k - 1).push(moves[k - 1].1)
    }
}

/// The cells of the board next to `c` that no snake lies on.
pub open spec fn empty_neighbors_spec(board: BoardView, c: Coordinate) -> Seq<Coordinate> {
    free_cells(board, possible_moves(board, c), possible_moves(board, c).len() as int)
}

/// The cells of `board` next to `c` that no snake lies on.
pub fn empty_neighbors(board: &Board, c: &Coordinate) -> (cells: Vec<Coordinate>)
    ensures
        cells@ == empty_neighbors_spec(board@, *c),
{
    let moves: Vec<(Direction, Coordinate)> = c.possbile_moves(board);
    let mut cells: Vec<Coordinate> = Vec::new();
    let mut i: usize = 0;
    while i < moves.len()
        invariant
            i <= moves.len(),
            moves@ == possible_moves(board@, *c),
            cells@ == free_cells(board@, moves@, i as int),
        decreases moves.len() - i,
    {
        if !cell_is_occupied(board, &moves[i].1) {
            cells.push(moves[i].1);
        }
        i += 1;
    }
    cells
}

/// True when the snake has to leave its circle for the meal now: its head
/// is the cell of the circle `body` nearest to the `k`-th food, and its
/// health does not last for another round and the way to the food.
pub open spec fn must_eat_now(
    g: GameStateView,
    body: Seq<Coordinate>,
    best_cost: int,
    k: int,
) -> bool {
    g.you.head == body[closest_index(body, g.board.food[k])] && g.you.health < body.len()
        + best_cost
}

/// True when the snake looks for a free cell next to its tail: the board
/// is nearly full and there is such a cell, or the snake lies on itself.
pub open spec fn wants_out(g: GameStateView) -> bool {
    (nearly_full(g.board) && empty_neighbors_spec(g.board, g.you.body.last()).len() > 0)
        || !g.you.body.no_duplicates()
}

/// True when `r` is the first step towards `targets` for a snake that has
/// to get there: the direction of that step, or the failure to find one.
pub open spec fn forced_ok(
    board: BoardView,
    targets: Seq<Coordinate>,
    head: Coordinate,
    r: Result<Direction, GameError>,
) -> bool {
    match r {
        Ok(d) => is_next_direction(board, targets, 0, head, Some(d)),
        Err(e) => e == GameError::NoPath && is_next_direction(board, targets, 0, head, None),
    }
}

/// True when `r` is the move of the hermit whose circle is `body` and
/// whose meal is the `k`-th food. In this order: where it has to eat now, it
/// heads for the meal; in the early turns it heads for the nearest food;
/// where it wants out and a free cell next to its tail can be reached, it
/// heads there; and else it follows its tail, or goes up where no walk
/// leads to it.
pub open spec fn hermit_direction_ok(
    g: GameStateView,
    body: Seq<Coordinate>,
    best_cost: int,
    k: int,
    r: Result<Direction, GameError>,
) -> bool {
    let head = g.you.head;
    if must_eat_now(g, body, best_cost, k) {
        forced_ok(g.board, seq![g.board.food[k]], head, r)
    } else if g.turn < EARLY_TURNS {
        forced_ok(g.board, g.board.food, head, r)
    } else {
        &&& r matches Ok(d)
        &&& exists|out: Option<Direction>| #[trigger]
            way_out_ok(g, out) && match out {
                Some(x) => d == x,
                None => exists|tailwards: Option<Direction>| #[trigger]
                    is_next_direction(g.board, seq![g.you.body.last()], 0, head, tailwards) && d
                        == (match tailwards {
                        Some(y) => y,
                        None => Direction::UP,
                    }),
            }
    }
}

/// True when `out` is the first step towards a free cell next to the tail
/// for a snake that wants out, and nothing for one that does not.
pub open spec fn way_out_ok(g: GameStateView, out: Option<Direction>) -> bool {
    if wants_out(g) {
        is_next_direction(
            g.board,
            empty_neighbors_spec(g.board, g.you.body.last()),
            0,
            g.you.head,
            out,
        )
    } else {
        out.is_none()
    }
}

/// True when `r` is the move of the hermit in `g`. A snake without a body,
/// a board that cannot be searched and a board without food are refused, in
/// this order; else the move is that of [`hermit_direction_ok`] for the
/// snake's circle and the meal chosen from the food nearest to it.
pub open spec fn hermit_move_ok(g: GameStateView, r: Result<Direction, GameError>) -> bool {
    if g.you.body.len() == 0 {
        r == Err::<Direction, GameError>(GameError::NoBody)
    } else if !search_fits(g.board, 0) {
        r == Err::<Direction, GameError>(GameError::NoSearch)
    } else if g.board.food.len() == 0 {
        r == Err::<Direction, GameError>(GameError::NoFood)
    } else {
        exists|body: Seq<Coordinate>, best_cost: int, k: int| #[trigger]
            is_chosen_meal(g, body, best_cost, k) && circle_ok(g, body) && is_nearest_food_cost(
                g.board.food,
                body,
                best_cost,
            ) && hermit_direction_ok(g, body, best_cost, k, r)
    }
}

/// The hermit.
pub struct EremeticEric {}

impl EremeticEric {
    /// The direction that the hermit takes in `state`.
    pub fn choose_direction(&self, state: &GameState) -> (r: Result<Direction, GameError>)
        ensures
            hermit_move_ok(state@, r),
    {
        let ghost g = state@;
        if state.you.body.len() == 0 {
            return Err(GameError::NoBody);
        }
        if !can_search(&state.board, &None) {
            return Err(GameError::NoSearch);
        }
        if state.board.food.len() == 0 {
            return Err(GameError::NoFood);
        }
        let body: Vec<Coordinate> = circle_body(state);
        let lonely: Board = lonely_board_of(state);
        let best_cost: i64 = nearest_food_cost(state.board.food.as_slice(), body.as_slice());
        let k: usize = choose_meal(state, &lonely, body.as_slice(), best_cost);
        let best_food: Coordinate = state.board.food[k];
        let closest: usize = closest_part(body.as_slice(), &best_food).0;
        let cant_survive_another_loop: bool = (state.you.health as i128) < body.len() as i128
            + best_cost as i128;
        let r: Result<Direction, GameError>;
        if state.you.head == body[closest] && cant_survive_another_loop {
            let targets: Vec<Coordinate> = vec![best_food];
            assert(targets@ =~= seq![g.board.food[k as int]]);
            r =
            match state.board.shortest_path_next_direction(
                &state.you.head,
                targets.as_slice(),
                None,
            ) {
                Some(d) => Ok(d),
                None => Err(GameError::NoPath),
            };
        } else if state.turn < EARLY_TURNS {
            r =
            match state.board.shortest_path_next_direction(
                &state.you.head,
                state.board.food.as_slice(),
                None,
            ) {
                Some(d) => Ok(d),
                None => Err(GameError::NoPath),
            };
        } else {
            let tail: Coordinate = state.you.body[state.you.body.len() - 1];
            let empty_tail_neighbors: Vec<Coordinate> = empty_neighbors(&state.board, &tail);
            let out: Option<Direction> = if (board_nearly_full(&state.board)
                && empty_tail_neighbors.len() > 0) || !has_unique_elements(
                state.you.body.as_slice(),
            ) {
                state.board.shortest_path_next_direction(
                    &state.you.head,
                    empty_tail_neighbors.as_slice(),
                    None,
                )
            } else {
                None
            };
            assert(way_out_ok(g, out));
            let d: Direction = match out {
                Some(x) => x,
                None => {
                    let targets: Vec<Coordinate> = vec![tail];
                    assert(targets@ =~= seq![g.you.body.last()]);
                    let tailwards: Option<Direction> = state.board.shortest_path_next_direction(
                        &state.you.head,
                        targets.as_slice(),
                        None,
                    );
                    assert(is_next_direction(
                        g.board,
                        seq![g.you.body.last()],
                        0,
                        g.you.head,
                        tailwards,
                    ));
                    match tailwards {
                        Some(y) => y,
                        None => Direction::UP,
                    }
                },
            };
            r = Ok(d);
        }
        proof {
            assert(hermit_direction_ok(g, body@, best_cost as int, k as int, r));
            assert(is_chosen_meal(g, body@, best_cost as int, k as int));
        }
        r
    }

    /// Tells whether the snake `you` of `state` lies on itself, as it does
    /// when it has died by running into itself.
    pub fn ran_into_itself(&self, state: &GameState) -> (hit: bool)
        ensures
            hit == !state@.you.body.no_duplicates(),
    {
        !has_unique_elements(state.you.body.as_slice())
    }
}

impl BattlesnakeAI for EremeticEric {
    fn name(&self) -> (name: String)
        ensures
            name@ == "eremetic-eric"@,
    {
        "eremetic-eric".to_owned()
    }

    fn about(&self) -> (about: AboutMe)
        ensures
            about.apiversion@ == "1"@,
            about.author matches Some(a) && a@ == "coreyja"@,
            about.color matches Some(c) && c@ == "#FF4444"@,
            about.head.is_none(),
            about.tail.is_none(),
            about.version.is_none(),
    {
        let base: AboutMe = AboutMe::default();
        AboutMe {
            apiversion: base.apiversion,
            author: Some("coreyja".to_owned()),
            color: Some("#FF4444".to_owned()),
            head: base.head,
            tail: base.tail,
            version: base.version,
        }
    }

    /// The name of the direction that the hermit takes in `state`, without a shout.
    fn make_move(&self, state: GameState) -> (r: Result<MoveOutput, GameError>)
        ensures
            match r {
                Ok(out) => out.shout.is_none() && exists|d: Direction|
                    out.chosen_move@ == #[trigger] direction_name(d) && hermit_move_ok(
                        state@,
                        Ok(d),
                    ),
                Err(e) => hermit_move_ok(state@, Err(e)),
            },
    {
        match self.choose_direction(&state) {
            Ok(d) => {
                let out = MoveOutput { chosen_move: d.value(), shout: None };
                assert(out.chosen_move@ == direction_name(d) && hermit_move_ok(state@, Ok(d)));
                Ok(out)
            },
            Err(e) => Err(e),
        }
    }
}

} // verus!
