//! Advancing one snake by one step, and taking that step back.

use vstd::prelude::*;
use crate::types::{
    find_snake, has_snake, lemma_first_with_id_unique, lemma_snake_index_is_first,
    snake_index, BattlesnakeView, BoardView, Coordinate, GameError, GameState, GameStateView,
};

verus! {

/// Health lost on a hazard cell, on top of the one point every step costs.
pub const HAZARD_DAMAGE: u8 = 15;

/// Health of a snake that has just eaten.
pub const FULL_HEALTH: u8 = 100;

/// What a step did to the snake that took it, with what is needed to undo it.
#[derive(Clone, Copy, Debug, PartialEq, Eq, Structural)]
pub enum MoveResult {
    /// The snake moved on: its health before the step, and the tail cell it left.
    MovedTail(u8, Coordinate),
    /// The snake ate and grew: its health before the step, the food cell, and
    /// the position that cell had in the board's food list.
    AteFood(u8, Coordinate, usize),
}

/// The record of one step of one snake.
#[derive(Clone, Debug)]
pub struct SnakeMove<T> {
    pub snake_id: T,
    pub move_result: MoveResult,
}

/// True when `i` is the first position of `c` in `cells`.
pub open spec fn is_first_cell(cells: Seq<Coordinate>, c: Coordinate, i: int) -> bool {
    &&& 0 <= i < cells.len()
    &&& cells[i] == c
    &&& forall|j: int| 0 <= j < i ==> cells[j] != c
}

/// The first position of `c` in `cells`; meaningful when `cells` contains `c`.
pub open spec fn first_cell_index(cells: Seq<Coordinate>, c: Coordinate) -> int {
    choose|i: int| is_first_cell(cells, c, i)
}

/// A first position is the first position.
pub proof fn lemma_first_cell_unique(cells: Seq<Coordinate>, c: Coordinate, i: int)
    requires
        is_first_cell(cells, c, i),
    ensures
        first_cell_index(cells, c) == i,
        cells.contains(c),
{
    let k = first_cell_index(cells, c);
    assert(is_first_cell(cells, c, k));
    if k < i {
        assert(cells[k] != c);
    }
    if i < k {
        assert(cells[i] != c);
    }
}

/// Among the cells up to position `n`, which holds `c`, one is the first to hold it.
pub proof fn lemma_first_cell_upto(cells: Seq<Coordinate>, c: Coordinate, n: int) -> (k: int)
    requires
        0 <= n < cells.len(),
        cells[n] == c,
    ensures
        is_first_cell(cells, c, k),
    decreases n,
{
    if exists|j: int| 0 <= j < n && cells[j] == c {
        let j = choose|j: int| 0 <= j < n && cells[j] == c;
        lemma_first_cell_upto(cells, c, j)
    } else {
        n
    }
}

/// Where `cells` contains `c`, [`first_cell_index`] is its first position.
pub proof fn lemma_first_cell_index_is_first(cells: Seq<Coordinate>, c: Coordinate)
    requires
        cells.contains(c),
    ensures
        is_first_cell(cells, c, first_cell_index(cells, c)),
{
    let n = choose|i: int| 0 <= i < cells.len() && cells[i] == c;
    let k = lemma_first_cell_upto(cells, c, n);
}

/// Finds the first position of `c` in `cells`.
pub fn find_cell(cells: &Vec<Coordinate>, c: &Coordinate) -> (found: Option<usize>)
    ensures
        match found {
            Some(i) => is_first_cell(cells@, *c, i as int) && first_cell_index(cells@, *c) == i,
            None => !cells@.contains(*c),
        },
{
    let mut i: usize = 0;
    while i < cells.len()
        invariant
            i <= cells.len(),
            forall|j: int| 0 <= j < i ==> cells@[j] != *c,
        decreases cells.len() - i,
    {
        if cells[i] == *c {
            proof {
                lemma_first_cell_unique(cells@, *c, i as int);
            }
            return Some(i);
        }
        i += 1;
    }
    None
}

/// Health after one step that found no food: one point less, and
/// [`HAZARD_DAMAGE`] more on a hazard cell, never below zero.
pub open spec fn health_after_step(health: u8, on_hazard: bool) -> u8 {
    let stepped: u8 = if health > 0 {
        (health - 1) as u8
    } else {
        0
    };
    if !on_hazard {
        stepped
    } else if stepped >= HAZARD_DAMAGE {
        (stepped - HAZARD_DAMAGE) as u8
    } else {
        0
    }
}

/// The snake `s` after a step onto `coor`.
pub open spec fn advance_snake(
    s: BattlesnakeView,
    coor: Coordinate,
    on_hazard: bool,
    ate: bool,
) -> BattlesnakeView {
    let grown = seq![coor] + s.body;
    BattlesnakeView {
        health: if ate {
            FULL_HEALTH
        } else {
            health_after_step(s.health, on_hazard)
        },
        body: if ate {
            grown
        } else {
            grown.drop_last()
        },
        ..s
    }
}

/// The snapshot after the first snake that carries `id` has stepped onto `coor`.
///
/// The new head is put in front of the body. A step onto food removes that
/// food cell (the first such cell in the list), restores full health and keeps
/// the tail; any other step costs health and drops the tail.
pub open spec fn advance_state(g: GameStateView, coor: Coordinate, id: Seq<char>) -> GameStateView {
    let i = snake_index(g.board.snakes, id);
    let ate = g.board.food.contains(coor);
    let on_hazard = g.board.hazards.contains(coor);
    GameStateView {
        board: BoardView {
            food: if ate {
                g.board.food.remove(first_cell_index(g.board.food, coor))
            } else {
                g.board.food
            },
            snakes: g.board.snakes.update(
                i,
                advance_snake(g.board.snakes[i], coor, on_hazard, ate),
            ),
            ..g.board
        },
        ..g
    }
}

/// What the record of that step holds.
pub open spec fn advance_result(g: GameStateView, coor: Coordinate, id: Seq<char>) -> MoveResult {
    let s = g.board.snakes[snake_index(g.board.snakes, id)];
    if g.board.food.contains(coor) {
        MoveResult::AteFood(s.health, coor, first_cell_index(g.board.food, coor) as usize)
    } else {
        MoveResult::MovedTail(s.health, (seq![coor] + s.body).last())
    }
}

/// True when `result` can be taken back from the first snake that carries `id` in `g`.
pub open spec fn revertible(g: GameStateView, id: Seq<char>, result: MoveResult) -> bool {
    &&& has_snake(g.board.snakes, id)
    &&& g.board.snakes[snake_index(g.board.snakes, id)].body.len() > 0
    &&& result matches MoveResult::AteFood(_, _, food_pos) ==> food_pos <= g.board.food.len()
}

/// The snapshot after `result` has been taken back from the first snake that carries `id`.
pub open spec fn revert_state(
    g: GameStateView,
    id: Seq<char>,
    result: MoveResult,
) -> GameStateView {
    let i = snake_index(g.board.snakes, id);
    let s = g.board.snakes[i];
    match result {
        MoveResult::MovedTail(old_health, tail_was) => GameStateView {
            board: BoardView {
                snakes: g.board.snakes.update(
                    i,
                    BattlesnakeView {
                        health: old_health,
                        body: s.body.drop_first().push(tail_was),
                        ..s
                    },
                ),
                ..g.board
            },
            ..g
        },
        MoveResult::AteFood(old_health, food_coor, food_pos) => GameStateView {
            board: BoardView {
                food: g.board.food.insert(food_pos as int, food_coor),
                snakes: g.board.snakes.update(
                    i,
                    BattlesnakeView { health: old_health, body: s.body.drop_first(), ..s },
                ),
                ..g.board
            },
            ..g
        },
    }
}

impl GameState {
    /// Moves the first snake that carries `snake_id` one step onto `coor` and
    /// returns the record of that step.
    ///
    /// Whether `coor` is next to the snake's head is up to the caller.
    /// Fails, leaving the snapshot as it was, when no snake carries `snake_id`.
    pub fn move_to(&mut self, coor: &Coordinate, snake_id: &String) -> (r: Result<
        SnakeMove<String>,
        GameError,
    >)
        ensures
            match r {
                Ok(m) => {
                    &&& has_snake(old(self)@.board.snakes, snake_id@)
                    &&& final(self)@ == advance_state(old(self)@, *coor, snake_id@)
                    &&& m.snake_id@ == snake_id@
                    &&& m.move_result == advance_result(old(self)@, *coor, snake_id@)
                    &&& old(self)@.board.snakes[snake_index(
                        old(self)@.board.snakes,
                        snake_id@,
                    )].body.len() > 0 ==> revertible(final(self)@, snake_id@, m.move_result)
                },
                Err(e) => {
                    &&& e == GameError::SnakeNotFound
                    &&& !has_snake(old(self)@.board.snakes, snake_id@)
                    &&& final(self)@ == old(self)@
                },
            },
    {
        let i: usize = match find_snake(&self.board.snakes, snake_id) {
            Some(i) => i,
            None => {
                return Err(GameError::SnakeNotFound);
            },
        };
        let on_hazard: bool = find_cell(&self.board.hazards, coor).is_some();
        let food_pos: Option<usize> = find_cell(&self.board.food, coor);
        let ghost before = self@;
        let ghost old_snakes = self.board.snakes@;
        let snake = &mut self.board.snakes[i];
        let old_health: u8 = snake.health;
        snake.body.insert(0, *coor);
        let move_result: MoveResult;
        match food_pos {
            Some(pos) => {
                snake.health = FULL_HEALTH;
                move_result = MoveResult::AteFood(old_health, *coor, pos);
                self.board.food.remove(pos);
            },
            None => {
                let stepped: u8 = if old_health > 0 {
                    old_health - 1
                } else {
                    0
                };
                snake.health = if !on_hazard {
                    stepped
                } else if stepped >= HAZARD_DAMAGE {
                    stepped - HAZARD_DAMAGE
                } else {
                    0
                };
                let tail_was: Coordinate = snake.body.pop().unwrap();
                move_result = MoveResult::MovedTail(old_health, tail_was);
            },
        }
        proof {
            let after = self@;
            let want = advance_state(before, *coor, snake_id@);
            assert(self.board.snakes@.len() == old_snakes.len());
            assert(forall|j: int|
                0 <= j < old_snakes.len() && j != i ==> self.board.snakes@[j] == old_snakes[j]);
            assert(self.board.snakes@[i as int].body@ =~= want.board.snakes[i as int].body);
            assert(self.board.snakes@[i as int]@ == want.board.snakes[i as int]);
            assert(after.board.snakes =~= want.board.snakes);
            assert(after.board.food =~= want.board.food);
            lemma_first_with_id_unique(after.board.snakes, snake_id@, i as int);
            assert(after.board == want.board);
            assert(after == want);
            assert(move_result == advance_result(before, *coor, snake_id@));
        }
        Ok(SnakeMove { snake_id: snake_id.clone(), move_result })
    }

    /// Takes back the step that `last_move` records: the snake loses the head
    /// it gained and gets back its earlier health, and either its tail cell
    /// or, after a meal, the food cell at its earlier place in the food list.
    ///
    /// Steps are taken back in the reverse of the order in which they were made.
    pub fn reverse_move(&mut self, last_move: SnakeMove<String>)
        requires
            revertible(old(self)@, last_move.snake_id@, last_move.move_result),
        ensures
            final(self)@ == revert_state(old(self)@, last_move.snake_id@, last_move.move_result),
    {
        let found: Option<usize> = find_snake(&self.board.snakes, &last_move.snake_id);
        let i: usize = found.unwrap();
        let ghost before = self@;
        let ghost old_snakes = self.board.snakes@;
        let snake = &mut self.board.snakes[i];
        let _head: Coordinate = snake.body.remove(0);
        match last_move.move_result {
            MoveResult::MovedTail(old_health, tail_was) => {
                snake.health = old_health;
                snake.body.push(tail_was);
            },
            MoveResult::AteFood(old_health, food_coor, food_pos) => {
                snake.health = old_health;
                self.board.food.insert(food_pos, food_coor);
            },
        }
        proof {
            let after = self@;
            let want = revert_state(before, last_move.snake_id@, last_move.move_result);
            assert(self.board.snakes@.len() == old_snakes.len());
            assert(forall|j: int|
                0 <= j < old_snakes.len() && j != i ==> self.board.snakes@[j] == old_snakes[j]);
            assert(self.board.snakes@[i as int].body@ =~= want.board.snakes[i as int].body);
            assert(self.board.snakes@[i as int]@ == want.board.snakes[i as int]);
            assert(after.board.snakes =~= want.board.snakes);
            assert(after.board.food =~= want.board.food);
            assert(after.board == want.board);
        }
    }
}

/// The snapshot after `pos` has been put behind the tail of the first snake that carries `id`.
pub open spec fn with_tail(g: GameStateView, id: Seq<char>, pos: Coordinate) -> GameStateView {
    let i = snake_index(g.board.snakes, id);
    let s = g.board.snakes[i];
    GameStateView {
        board: BoardView {
            snakes: g.board.snakes.update(i, BattlesnakeView { body: s.body.push(pos), ..s }),
            ..g.board
        },
        ..g
    }
}

/// A game in which a snake can be given a cell behind its tail.
pub trait SnakeTailPushableGame {
    /// The snapshot that the game stands for.
    spec fn game_view(&self) -> GameStateView;

    /// Puts `pos` behind the tail of the first snake that carries
    /// `snake_id`. Fails, leaving the game as it was, when no snake does.
    fn push_tail(&mut self, snake_id: &String, pos: Coordinate) -> (r: Result<(), GameError>)
        ensures
            match r {
                Ok(_) => {
                    &&& has_snake(old(self).game_view().board.snakes, snake_id@)
                    &&& final(self).game_view() == with_tail(
                        old(self).game_view(),
                        snake_id@,
                        pos,
                    )
                },
                Err(e) => {
                    &&& e == GameError::SnakeNotFound
                    &&& !has_snake(old(self).game_view().board.snakes, snake_id@)
                    &&& final(self).game_view() == old(self).game_view()
                },
            },
    ;
}

impl SnakeTailPushableGame for GameState {
    open spec fn game_view(&self) -> GameStateView {
        self@
    }

    fn push_tail(&mut self, snake_id: &String, pos: Coordinate) -> (r: Result<(), GameError>) {
        let i: usize = match find_snake(&self.board.snakes, snake_id) {
            Some(i) => i,
            None => {
                return Err(GameError::SnakeNotFound);
            },
        };
        let ghost before = self@;
        let ghost old_snakes = self.board.snakes@;
        let snake = &mut self.board.snakes[i];
        snake.body.push(pos);
        proof {
            let want = with_tail(before, snake_id@, pos);
            assert(self.board.snakes@.len() == old_snakes.len());
            assert(forall|j: int|
                0 <= j < old_snakes.len() && j != i ==> self.board.snakes@[j] == old_snakes[j]);
            assert(self.board.snakes@[i as int]@ == want.board.snakes[i as int]);
            assert(self@.board.snakes =~= want.board.snakes);
            assert(self@.board == want.board);
        }
        Ok(())
    }
}

/// True when the first snake that carries `id` exists in `g` and can step:
/// it has a body, and the food list is one that a machine can hold.
pub open spec fn can_step(g: GameStateView, id: Seq<char>) -> bool {
    &&& has_snake(g.board.snakes, id)
    &&& g.board.snakes[snake_index(g.board.snakes, id)].body.len() > 0
    &&& g.board.food.len() <= usize::MAX
}

/// Taking back a step restores the snapshot exactly: after any step of any
/// snake onto any cell, reverting with the record of that step gives back
/// the earlier body, health and food list, and leaves everything else as it
/// was.
pub proof fn revert_undoes_advance(g: GameStateView, coor: Coordinate, id: Seq<char>)
    requires
        can_step(g, id),
    ensures
        revertible(advance_state(g, coor, id), id, advance_result(g, coor, id)),
        revert_state(advance_state(g, coor, id), id, advance_result(g, coor, id)) == g,
{
    let i = snake_index(g.board.snakes, id);
    lemma_snake_index_is_first(g.board.snakes, id);
    let a = advance_state(g, coor, id);
    let r = advance_result(g, coor, id);
    lemma_first_with_id_unique(a.board.snakes, id, i);
    let back = revert_state(a, id, r);
    let s = g.board.snakes[i];
    if g.board.food.contains(coor) {
        let k = first_cell_index(g.board.food, coor);
        lemma_first_cell_index_is_first(g.board.food, coor);
        assert(back.board.food =~= g.board.food);
        assert(back.board.snakes[i].body =~= s.body);
    } else {
        assert(back.board.snakes[i].body =~= s.body);
    }
    assert(back.board.snakes =~= g.board.snakes);
    assert(back.board == g.board);
}

} // verus!
