//! A board held cell by cell: for every cell of the grid, in rows, whether
//! it is a hazard, whether food lies on it, and whether a snake lies on it.
//! The shortest-path search runs on it as it does on the list form.

use vstd::prelude::*;
use crate::a_prime::{
    a_prime_search, APrimeCalculable, APrimeNextDirection, APrimeOptions, APrimeResult,
    SearchableBoard,
};
use crate::path_model::{adjacent, lemma_neighbors, occupied};
use crate::types::{
    in_grid, on_board, possible_moves, BoardView, Coordinate, Direction, GameState,
};

verus! {

/// The greatest number of cells that a board held cell by cell may have.
pub const MAX_CELLS: u64 = 65_536;

/// The place of the cell `c` in a grid of rows of `width` cells.
pub open spec fn cell_index(width: int, c: Coordinate) -> int {
    c.y * width + c.x
}

/// The cells of a grid have different places, all below the number of its cells.
pub proof fn lemma_cell_index(width: int, height: int, a: Coordinate, b: Coordinate)
    requires
        in_grid(width, height, a),
    ensures
        0 <= cell_index(width, a) < width * height,
        in_grid(width, height, b) && cell_index(width, a) == cell_index(width, b) ==> a == b,
{
    assert(0 <= a.y * width && a.y * width + width <= height * width) by (nonlinear_arith)
        requires
            0 <= a.y < height,
            0 <= width,
    ;
    assert(height * width == width * height) by (nonlinear_arith);
    if in_grid(width, height, b) && cell_index(width, a) == cell_index(width, b) {
        assert(a.y == b.y) by (nonlinear_arith)
            requires
                a.y * width + a.x == b.y * width + b.x,
                0 <= a.x < width,
                0 <= b.x < width,
        ;
    }
}

/// True when `board` can be held cell by cell: it has no more than
/// [`MAX_CELLS`] cells, and its food and its hazards lie on it.
pub open spec fn convertible(board: BoardView) -> bool {
    &&& board.width * board.height <= MAX_CELLS
    &&& forall|i: int| 0 <= i < board.hazards.len() ==> on_board(board, #[trigger] board.hazards[i])
    &&& forall|i: int| 0 <= i < board.food.len() ==> on_board(board, #[trigger] board.food[i])
}

/// True when a segment of one of the first `n` snakes lies on `c`.
pub open spec fn occupied_by_first(board: BoardView, n: int, c: Coordinate) -> bool {
    exists|i: int, j: int|
        0 <= i < n && i < board.snakes.len() && 0 <= j < board.snakes[i].body.len()
            && #[trigger] board.snakes[i].body[j] == c
}

/// Tells whether every cell of `cells` lies within `[0, width) x [0, height)`.
pub fn all_within(cells: &[Coordinate], width: u32, height: u32) -> (all: bool)
    ensures
        all == forall|i: int|
            0 <= i < cells@.len() ==> in_grid(width as int, height as int, #[trigger] cells@[i]),
{
    let mut i: usize = 0;
    while i < cells.len()
        invariant
            i <= cells.len(),
            forall|k: int|
                0 <= k < i ==> in_grid(width as int, height as int, #[trigger] cells@[k]),
        decreases cells.len() - i,
    {
        if !cells[i].within(width, height) {
            return false;
        }
        i += 1;
    }
    true
}

/// One mark for every cell of a grid, none of them set.
pub fn no_marks(width: u32, height: u32) -> (marks: Vec<bool>)
    requires
        width * height <= MAX_CELLS,
    ensures
        marks@.len() == width * height,
        forall|k: int| 0 <= k < marks@.len() ==> !marks@[k],
{
    let cells: u64 = width as u64 * height as u64;
    let mut marks: Vec<bool> = Vec::new();
    let mut i: u64 = 0;
    while i < cells
        invariant
            i <= cells,
            marks@.len() == i,
            forall|k: int| 0 <= k < marks@.len() ==> !marks@[k],
        decreases cells - i,
    {
        marks.push(false);
        i += 1;
    }
    marks
}

/// Sets the marks of those of `cells` that lie in the grid.
pub fn mark_cells(marks: &mut Vec<bool>, width: u32, height: u32, cells: &[Coordinate])
    requires
        old(marks)@.len() == width * height,
        width * height <= MAX_CELLS,
    ensures
        final(marks)@.len() == old(marks)@.len(),
        forall|c: Coordinate|
            in_grid(width as int, height as int, c) ==> final(marks)@[#[trigger] cell_index(
                width as int,
                c,
            )] == (old(marks)@[cell_index(width as int, c)] || cells@.contains(c)),
{
    let ghost w = width as int;
    let ghost h = height as int;
    let ghost before = marks@;
    let mut i: usize = 0;
    while i < cells.len()
        invariant
            i <= cells.len(),
            w == width,
            h == height,
            w * h <= MAX_CELLS,
            marks@.len() == before.len(),
            before.len() == w * h,
            forall|c: Coordinate|
                in_grid(w, h, c) ==> marks@[#[trigger] cell_index(w, c)] == (before[cell_index(
                    w,
                    c,
                )] || exists|k: int| 0 <= k < i && cells@[k] == c),
        decreases cells.len() - i,
    {
        let cell: Coordinate = cells[i];
        if cell.within(width, height) {
            proof {
                lemma_cell_index(w, h, cell, cell);
            }
            let at: usize = (cell.y as u64 * width as u64 + cell.x as u64) as usize;
            let ghost earlier = marks@;
            marks.set(at, true);
            proof {
                assert forall|c: Coordinate| in_grid(w, h, c) implies marks@[#[trigger] cell_index(
                    w,
                    c,
                )] == (before[cell_index(w, c)] || exists|k: int|
                    0 <= k < i + 1 && cells@[k] == c) by {
                    lemma_cell_index(w, h, c, cell);
                    if c == cell {
                        assert(cells@[i as int] == c);
                    } else {
                        assert(marks@[cell_index(w, c)] == earlier[cell_index(w, c)]);
                    }
                }
            }
        }
        i += 1;
    }
}

/// A board held cell by cell.
pub struct CellBoard {
    width: u32,
    height: u32,
    hazard: Vec<bool>,
    food: Vec<bool>,
    body: Vec<bool>,
    model: Ghost<BoardView>,
}

impl CellBoard {
    /// The marks say of every cell of the grid what the board says of it,
    /// and the board has neither food nor hazards off the grid.
    #[verifier::type_invariant]
    spec fn well_formed(self) -> bool {
        let b = self.model@;
        let w = self.width as int;
        &&& b.width == self.width
        &&& b.height == self.height
        &&& convertible(b)
        &&& self.hazard@.len() == self.width * self.height
        &&& self.food@.len() == self.width * self.height
        &&& self.body@.len() == self.width * self.height
        &&& forall|c: Coordinate|
            on_board(b, c) ==> {
                &&& self.hazard@[#[trigger] cell_index(w, c)] == b.hazards.contains(c)
                &&& self.food@[cell_index(w, c)] == b.food.contains(c)
                &&& self.body@[cell_index(w, c)] == occupied(b, c)
            }
    }

    /// Holds the board of `state` cell by cell, where it can be held so.
    #[verifier::rlimit(50)]
    pub fn convert_from_game(state: &GameState) -> (r: Option<CellBoard>)
        ensures
            match r {
                Some(compact) => convertible(state@.board) && compact.board_of() == state@.board,
                None => !convertible(state@.board),
            },
    {
        let width: u32 = state.board.width;
        let height: u32 = state.board.height;
        let ghost b = state@.board;
        let ghost w = width as int;
        let ghost h = height as int;
        assert(width * height <= 0xffff_ffff * 0xffff_ffff) by (nonlinear_arith)
            requires
                0 <= width <= 0xffff_ffff,
                0 <= height <= 0xffff_ffff,
        ;
        if width as u64 * height as u64 > MAX_CELLS {
            return None;
        }
        let hazards: &[Coordinate] = state.board.hazards.as_slice();
        let foods: &[Coordinate] = state.board.food.as_slice();
        if !all_within(hazards, width, height) {
            proof {
                let i = choose|i: int| 0 <= i < hazards@.len() && !in_grid(w, h, hazards@[i]);
                assert(!on_board(b, b.hazards[i]));
            }
            return None;
        }
        if !all_within(foods, width, height) {
            proof {
                let i = choose|i: int| 0 <= i < foods@.len() && !in_grid(w, h, foods@[i]);
                assert(!on_board(b, b.food[i]));
            }
            return None;
        }
        proof {
            assert forall|i: int| 0 <= i < b.hazards.len() implies on_board(
                b,
                #[trigger] b.hazards[i],
            ) by {
                assert(in_grid(w, h, hazards@[i]));
            }
            assert forall|i: int| 0 <= i < b.food.len() implies on_board(
                b,
                #[trigger] b.food[i],
            ) by {
                assert(in_grid(w, h, foods@[i]));
            }
        }
        let mut hazard: Vec<bool> = no_marks(width, height);
        let mut food: Vec<bool> = no_marks(width, height);
        let mut body: Vec<bool> = no_marks(width, height);
        proof {
            assert forall|c: Coordinate| in_grid(w, h, c) implies !hazard@[cell_index(w, c)]
                && !food@[cell_index(w, c)] && !body@[cell_index(w, c)] by {
                lemma_cell_index(w, h, c, c);
            }
        }
        mark_cells(&mut hazard, width, height, hazards);
        mark_cells(&mut food, width, height, foods);
        let mut i: usize = 0;
        while i < state.board.snakes.len()
            invariant
                i <= state.board.snakes.len(),
                b == state@.board,
                w == width,
                h == height,
                w * h <= MAX_CELLS,
                body@.len() == w * h,
                forall|c: Coordinate|
                    in_grid(w, h, c) ==> body@[#[trigger] cell_index(w, c)] == occupied_by_first(
                        b,
                        i as int,
                        c,
                    ),
            decreases state.board.snakes.len() - i,
        {
            let ghost earlier = body@;
            mark_cells(&mut body, width, height, state.board.snakes[i].body.as_slice());
            proof {
                let segments = state.board.snakes@[i as int].body@;
                assert(b.snakes[i as int].body == segments);
                assert forall|c: Coordinate| in_grid(w, h, c) implies body@[#[trigger] cell_index(
                    w,
                    c,
                )] == occupied_by_first(b, i + 1, c) by {
                    if segments.contains(c) {
                        let j = choose|j: int| 0 <= j < segments.len() && segments[j] == c;
                        assert(b.snakes[i as int].body[j] == c);
                    }
                    if occupied_by_first(b, i as int, c) {
                        let (p, q) = choose|p: int, q: int|
                            0 <= p < i && p < b.snakes.len() && 0 <= q < b.snakes[p].body.len()
                                && #[trigger] b.snakes[p].body[q] == c;
                        assert(b.snakes[p].body[q] == c);
                    }
                    if occupied_by_first(b, i + 1, c) && !occupied_by_first(b, i as int, c) {
                        let (p, q) = choose|p: int, q: int|
                            0 <= p < i + 1 && p < b.snakes.len() && 0 <= q < b.snakes[p].body.len()
                                && #[trigger] b.snakes[p].body[q] == c;
                        assert(p == i);
                        assert(segments[q] == c);
                    }
                }
            }
            i += 1;
        }
        proof {
            assert forall|c: Coordinate| on_board(b, c) implies body@[cell_index(w, c)] == occupied(
                b,
                c,
            ) by {
                assert(body@[cell_index(w, c)] == occupied_by_first(b, b.snakes.len() as int, c));
                if occupied(b, c) {
                    let (p, q) = choose|p: int, q: int|
                        0 <= p < b.snakes.len() && 0 <= q < b.snakes[p].body.len()
                            && #[trigger] b.snakes[p].body[q] == c;
                    assert(b.snakes[p].body[q] == c);
                }
            }
        }
        Some(CellBoard { width, height, hazard, food, body, model: Ghost(b) })
    }

    /// The place of `c` among the marks, if it is a cell of the grid.
    fn place_of(&self, c: &Coordinate) -> (at: Option<usize>)
        ensures
            at.is_some() == on_board(self.board_of(), *c),
            at matches Some(i) ==> i == cell_index(self.width as int, *c) && i < self.width
                * self.height,
    {
        proof {
            use_type_invariant(self);
        }
        if c.within(self.width, self.height) {
            proof {
                lemma_cell_index(self.width as int, self.height as int, *c, *c);
            }
            Some((c.y as u64 * self.width as u64 + c.x as u64) as usize)
        } else {
            None
        }
    }
}

impl SearchableBoard for CellBoard {
    closed spec fn board_of(&self) -> BoardView {
        self.model@
    }

    fn neighbors(&self, c: &Coordinate) -> (cells: Vec<Coordinate>) {
        proof {
            use_type_invariant(self);
        }
        let moves: Vec<(Direction, Coordinate)> = c.moves_within(self.width, self.height);
        let mut cells: Vec<Coordinate> = Vec::new();
        let mut i: usize = 0;
        while i < moves.len()
            invariant
                i <= moves.len(),
                cells@.len() == i,
                forall|k: int| 0 <= k < i ==> cells@[k] == (#[trigger] moves@[k]).1,
            decreases moves.len() - i,
        {
            cells.push(moves[i].1);
            i += 1;
        }
        proof {
            let b = self.model@;
            assert(moves@ == possible_moves(b, *c));
            lemma_neighbors(b, *c);
            assert forall|n: Coordinate| cells@.contains(n) implies adjacent(*c, n) && on_board(
                b,
                n,
            ) by {
                let k = choose|k: int| 0 <= k < cells@.len() && cells@[k] == n;
                assert(moves@[k].1 == n);
            }
            assert forall|n: Coordinate| adjacent(*c, n) && on_board(b, n) implies cells@.contains(
                n,
            ) by {
                let k = choose|k: int| 0 <= k < moves@.len() && (#[trigger] moves@[k]).1 == n;
                assert(cells@[k] == n);
            }
        }
        cells
    }

    fn cell_is_hazard(&self, c: &Coordinate) -> (b: bool) {
        proof {
            use_type_invariant(self);
        }
        match self.place_of(c) {
            Some(at) => self.hazard[at],
            None => {
                proof {
                    let board = self.model@;
                    if board.hazards.contains(*c) {
                        let i = choose|i: int|
                            0 <= i < board.hazards.len() && board.hazards[i] == *c;
                        assert(on_board(board, board.hazards[i]));
                    }
                }
                false
            },
        }
    }

    fn cell_is_food(&self, c: &Coordinate) -> (b: bool) {
        proof {
            use_type_invariant(self);
        }
        match self.place_of(c) {
            Some(at) => self.food[at],
            None => {
                proof {
                    let board = self.model@;
                    if board.food.contains(*c) {
                        let i = choose|i: int| 0 <= i < board.food.len() && board.food[i] == *c;
                        assert(on_board(board, board.food[i]));
                    }
                }
                false
            },
        }
    }

    fn cell_is_snake_body_piece(&self, c: &Coordinate) -> (b: bool) {
        proof {
            use_type_invariant(self);
        }
        match self.place_of(c) {
            Some(at) => self.body[at],
            None => false,
        }
    }
}

impl APrimeCalculable for CellBoard {
    fn a_prime_inner(
        &self,
        start: &Coordinate,
        targets: &[Coordinate],
        options: Option<APrimeOptions>,
    ) -> (r: Option<APrimeResult>) {
        let food_penalty: i32 = match options {
            Some(o) => o.food_penalty,
            None => 0,
        };
        a_prime_search(self, start, targets, food_penalty)
    }
}

impl APrimeNextDirection for CellBoard {

}

} // verus!
