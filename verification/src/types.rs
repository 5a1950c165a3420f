//! The board model: cells, directions, snakes, and one game snapshot.

use vstd::prelude::*;

verus! {

/// One grid cell. Cells are ordered by `x`, then by `y`.
#[derive(Clone, Copy, Debug, PartialEq, Eq, Hash, Structural)]
pub struct Coordinate {
    pub x: i32,
    pub y: i32,
}

/// One of the four single-step directions.
#[allow(non_camel_case_types)]
#[derive(Clone, Copy, Debug, PartialEq, Eq, Hash, Structural)]
pub enum Direction {
    UP,
    RIGHT,
    DOWN,
    LEFT,
}

/// The horizontal displacement of one step in direction `d`.
pub open spec fn direction_dx(d: Direction) -> int {
    match d {
        Direction::LEFT => -1,
        Direction::RIGHT => 1,
        _ => 0,
    }
}

/// The vertical displacement of one step in direction `d`; `UP` increases `y`.
pub open spec fn direction_dy(d: Direction) -> int {
    match d {
        Direction::UP => 1,
        Direction::DOWN => -1,
        _ => 0,
    }
}

/// The lower-case name under which a direction is reported.
pub open spec fn direction_name(d: Direction) -> Seq<char> {
    match d {
        Direction::UP => "up"@,
        Direction::RIGHT => "right"@,
        Direction::LEFT => "left"@,
        Direction::DOWN => "down"@,
    }
}

/// The cell reached from `c` by one step in direction `d`, as a pair of mathematical integers.
pub open spec fn moved(c: Coordinate, d: Direction) -> (int, int) {
    (c.x + direction_dx(d), c.y + direction_dy(d))
}

/// True when a step from `c` in direction `d` stays within the coordinate range.
pub open spec fn can_move_in(c: Coordinate, d: Direction) -> bool {
    &&& i32::MIN <= c.x + direction_dx(d) <= i32::MAX
    &&& i32::MIN <= c.y + direction_dy(d) <= i32::MAX
}

/// Canonical strict order on cells: by `x`, ties by `y`.
pub open spec fn coord_lt(a: Coordinate, b: Coordinate) -> bool {
    a.x < b.x || (a.x == b.x && a.y < b.y)
}

/// One snake as it arrives from the game server.
///
/// `body` runs from the head (index 0) to the tail (last index). `length` is
/// kept beside the body and is not changed when the body grows during search.
#[derive(Clone, Debug)]
pub struct Battlesnake {
    pub id: String,
    pub name: String,
    pub health: u8,
    pub body: Vec<Coordinate>,
    pub head: Coordinate,
    pub length: u64,
    pub shout: Option<String>,
    pub squad: Option<String>,
}

/// The text of `t`, if there is one.
pub open spec fn text_view(t: Option<String>) -> Option<Seq<char>> {
    match t {
        Some(s) => Some(s@),
        None => None,
    }
}

/// The mathematical model of a [`Battlesnake`].
pub struct BattlesnakeView {
    pub id: Seq<char>,
    pub name: Seq<char>,
    pub health: u8,
    pub body: Seq<Coordinate>,
    pub head: Coordinate,
    pub length: u64,
    pub shout: Option<Seq<char>>,
    pub squad: Option<Seq<char>>,
}

impl View for Battlesnake {
    type V = BattlesnakeView;

    open spec fn view(&self) -> BattlesnakeView {
        BattlesnakeView {
            id: self.id@,
            name: self.name@,
            health: self.health,
            body: self.body@,
            head: self.head,
            length: self.length,
            shout: text_view(self.shout),
            squad: text_view(self.squad),
        }
    }
}

/// The views of a list of snakes, in the same order.
pub open spec fn snakes_view(snakes: Seq<Battlesnake>) -> Seq<BattlesnakeView> {
    Seq::new(snakes.len(), |i: int| snakes[i]@)
}

/// The playing field: its size, the food and hazard cells, and the snakes on it.
#[derive(Clone, Debug)]
pub struct Board {
    pub height: u32,
    pub width: u32,
    pub food: Vec<Coordinate>,
    pub hazards: Vec<Coordinate>,
    pub snakes: Vec<Battlesnake>,
}

/// The mathematical model of a [`Board`].
pub struct BoardView {
    pub height: u32,
    pub width: u32,
    pub food: Seq<Coordinate>,
    pub hazards: Seq<Coordinate>,
    pub snakes: Seq<BattlesnakeView>,
}

impl View for Board {
    type V = BoardView;

    open spec fn view(&self) -> BoardView {
        BoardView {
            height: self.height,
            width: self.width,
            food: self.food@,
            hazards: self.hazards@,
            snakes: snakes_view(self.snakes@),
        }
    }
}

/// True when `c` lies within `[0, width) x [0, height)`.
pub open spec fn in_grid(width: int, height: int, c: Coordinate) -> bool {
    0 <= c.x < width && 0 <= c.y < height
}

/// True when `c` is a cell of `board`.
pub open spec fn on_board(board: BoardView, c: Coordinate) -> bool {
    in_grid(board.width as int, board.height as int, c)
}

/// The step from `c` in direction `d`, as a one-element list when it ends
/// within `[0, width) x [0, height)` and as the empty list when it does not.
pub open spec fn move_if_within(width: int, height: int, c: Coordinate, d: Direction) -> Seq<
    (Direction, Coordinate),
> {
    let (x, y) = moved(c, d);
    if 0 <= x < width && 0 <= y < height && x <= i32::MAX && y <= i32::MAX {
        seq![(d, Coordinate { x: x as i32, y: y as i32 })]
    } else {
        Seq::empty()
    }
}

/// The steps from `c` that end within `[0, width) x [0, height)`, each with
/// its direction, in the order up, right, down, left.
pub open spec fn possible_moves_within(width: int, height: int, c: Coordinate) -> Seq<
    (Direction, Coordinate),
> {
    move_if_within(width, height, c, Direction::UP) + move_if_within(
        width,
        height,
        c,
        Direction::RIGHT,
    ) + move_if_within(width, height, c, Direction::DOWN) + move_if_within(
        width,
        height,
        c,
        Direction::LEFT,
    )
}

/// The steps from `c` that end on the board, each with its direction, in the
/// order up, right, down, left.
pub open spec fn possible_moves(board: BoardView, c: Coordinate) -> Seq<(Direction, Coordinate)> {
    possible_moves_within(board.width as int, board.height as int, c)
}

impl Direction {
    /// The name of this direction: `"up"`, `"right"`, `"down"` or `"left"`.
    pub fn value(&self) -> (name: String)
        ensures
            name@ == direction_name(*self),
    {
        match self {
            Direction::UP => "up".to_owned(),
            Direction::RIGHT => "right".to_owned(),
            Direction::LEFT => "left".to_owned(),
            Direction::DOWN => "down".to_owned(),
        }
    }
}

impl Coordinate {
    /// The neighbouring cell one step away in `direction`.
    pub fn move_in(&self, direction: &Direction) -> (next: Coordinate)
        requires
            can_move_in(*self, *direction),
        ensures
            (next.x as int, next.y as int) == moved(*self, *direction),
    {
        let mut x: i32 = self.x;
        let mut y: i32 = self.y;
        match direction {
            Direction::UP => {
                y += 1;
            },
            Direction::DOWN => {
                y -= 1;
            },
            Direction::LEFT => {
                x -= 1;
            },
            Direction::RIGHT => {
                x += 1;
            },
        };
        Coordinate { x, y }
    }

    /// True when `self` comes strictly before `other` in the canonical order.
    pub fn precedes(&self, other: &Coordinate) -> (b: bool)
        ensures
            b == coord_lt(*self, *other),
    {
        self.x < other.x || (self.x == other.x && self.y < other.y)
    }

    /// True when this cell lies within `[0, width) x [0, height)`.
    pub fn within(&self, width: u32, height: u32) -> (b: bool)
        ensures
            b == in_grid(width as int, height as int, *self),
    {
        self.x >= 0 && (self.x as i64) < (width as i64) && self.y >= 0 && (self.y as i64) < (
        height as i64)
    }

    /// True when this cell lies on `board`.
    pub fn valid(&self, board: &Board) -> (b: bool)
        ensures
            b == on_board(board@, *self),
    {
        self.within(board.width, board.height)
    }

    /// Tells whether a step in `direction` stays within the coordinate range.
    pub fn can_move(&self, direction: &Direction) -> (b: bool)
        ensures
            b == can_move_in(*self, *direction),
    {
        match direction {
            Direction::UP => self.y < i32::MAX,
            Direction::DOWN => self.y > i32::MIN,
            Direction::LEFT => self.x > i32::MIN,
            Direction::RIGHT => self.x < i32::MAX,
        }
    }

    /// The steps from this cell that end within `[0, width) x [0, height)`,
    /// each with its direction.
    pub fn moves_within(&self, width: u32, height: u32) -> (moves: Vec<(Direction, Coordinate)>)
        ensures
            moves@ == possible_moves_within(width as int, height as int, *self),
    {
        let directions: Vec<Direction> = vec![
            Direction::UP,
            Direction::RIGHT,
            Direction::DOWN,
            Direction::LEFT,
        ];
        let mut moves: Vec<(Direction, Coordinate)> = Vec::new();
        let ghost w = width as int;
        let ghost h = height as int;
        let ghost c = *self;
        let ghost mut so_far: Seq<(Direction, Coordinate)> = Seq::empty();
        let mut i: usize = 0;
        while i < 4
            invariant
                i <= 4,
                w == width,
                h == height,
                c == *self,
                directions@ == seq![
                    Direction::UP,
                    Direction::RIGHT,
                    Direction::DOWN,
                    Direction::LEFT,
                ],
                moves@ == so_far,
                i == 0 ==> so_far == Seq::<(Direction, Coordinate)>::empty(),
                i == 1 ==> so_far == move_if_within(w, h, c, Direction::UP),
                i == 2 ==> so_far == move_if_within(w, h, c, Direction::UP) + move_if_within(
                    w,
                    h,
                    c,
                    Direction::RIGHT,
                ),
                i == 3 ==> so_far == move_if_within(w, h, c, Direction::UP) + move_if_within(
                    w,
                    h,
                    c,
                    Direction::RIGHT,
                ) + move_if_within(w, h, c, Direction::DOWN),
                i == 4 ==> so_far == possible_moves_within(w, h, c),
            decreases 4 - i,
        {
            let direction: Direction = directions[i];
            if self.can_move(&direction) {
                let next: Coordinate = self.move_in(&direction);
                if next.within(width, height) {
                    moves.push((direction, next));
                }
            }
            proof {
                so_far = so_far + move_if_within(w, h, c, direction);
                assert(moves@ =~= so_far);
            }
            i += 1;
        }
        moves
    }

    /// The steps from this cell that end on `board`, each with its direction.
    pub fn possbile_moves(&self, board: &Board) -> (moves: Vec<(Direction, Coordinate)>)
        ensures
            moves@ == possible_moves(board@, *self),
    {
        self.moves_within(board.width, board.height)
    }
}

/// A copy of `cells`.
pub fn copy_cells(cells: &[Coordinate]) -> (copy: Vec<Coordinate>)
    ensures
        copy@ == cells@,
{
    let mut copy: Vec<Coordinate> = Vec::new();
    let mut i: usize = 0;
    while i < cells.len()
        invariant
            i <= cells.len(),
            copy@ == cells@.take(i as int),
        decreases cells.len() - i,
    {
        copy.push(cells[i]);
        assert(cells@.take(i + 1) =~= cells@.take(i as int).push(cells@[i as int]));
        i += 1;
    }
    assert(cells@.take(cells@.len() as int) =~= cells@);
    copy
}

/// A copy of the text `t`, if there is one.
pub fn copy_text(t: &Option<String>) -> (copy: Option<String>)
    ensures
        text_view(copy) == text_view(*t),
{
    match t {
        Some(s) => Some(s.clone()),
        None => None,
    }
}

impl Battlesnake {
    /// The steps from this snake's `head` that end on `board`.
    pub fn possbile_moves(&self, board: &Board) -> (moves: Vec<(Direction, Coordinate)>)
        ensures
            moves@ == possible_moves(board@, self.head),
    {
        self.head.possbile_moves(board)
    }

    /// A copy of this snake.
    pub fn copy(&self) -> (copy: Battlesnake)
        ensures
            copy@ == self@,
    {
        Battlesnake {
            id: self.id.clone(),
            name: self.name.clone(),
            health: self.health,
            body: copy_cells(self.body.as_slice()),
            head: self.head,
            length: self.length,
            shout: copy_text(&self.shout),
            squad: copy_text(&self.squad),
        }
    }
}

/// The rule set a game is played under.
#[derive(Clone, Debug)]
pub struct Ruleset {
    pub name: String,
    pub version: String,
}

/// The game a snapshot belongs to.
#[derive(Clone, Debug)]
pub struct Game {
    pub id: String,
    pub ruleset: Option<Ruleset>,
    pub timeout: u64,
}

/// One game snapshot, seen from the snake `you`.
#[derive(Clone, Debug)]
pub struct GameState {
    pub game: Game,
    pub turn: u64,
    pub board: Board,
    pub you: Battlesnake,
}

/// The mathematical model of a [`Game`]: its identifier, the name and
/// version of its rule set if it has one, and its timeout.
pub struct GameView {
    pub id: Seq<char>,
    pub ruleset: Option<(Seq<char>, Seq<char>)>,
    pub timeout: u64,
}

impl View for Game {
    type V = GameView;

    open spec fn view(&self) -> GameView {
        GameView {
            id: self.id@,
            ruleset: match self.ruleset {
                Some(r) => Some((r.name@, r.version@)),
                None => None,
            },
            timeout: self.timeout,
        }
    }
}

/// The mathematical model of a [`GameState`].
pub struct GameStateView {
    pub game: GameView,
    pub turn: u64,
    pub board: BoardView,
    pub you: BattlesnakeView,
}

impl View for GameState {
    type V = GameStateView;

    open spec fn view(&self) -> GameStateView {
        GameStateView { game: self.game@, turn: self.turn, board: self.board@, you: self.you@ }
    }
}

/// Why a request on a game snapshot was refused.
#[derive(Clone, Copy, Debug, PartialEq, Eq, Structural)]
pub enum GameError {
    /// No snake on the board carries the requested identifier.
    SnakeNotFound,
    /// The snapshot is not a duel that can be searched: `you` and exactly
    /// one other snake, each with a body that is not too long.
    NotADuel,
    /// The snake that is to move has no body.
    NoBody,
    /// There is no food on the board, where the move depends on it.
    NoFood,
    /// No walk leads to where the snake has to go.
    NoPath,
    /// The board is too large, or the food penalty negative, for a search.
    NoSearch,
}

/// True when some snake in `snakes` carries `id`.
pub open spec fn has_snake(snakes: Seq<BattlesnakeView>, id: Seq<char>) -> bool {
    exists|i: int| 0 <= i < snakes.len() && #[trigger] snakes[i].id == id
}

/// True when `i` is the position of the first snake in `snakes` that carries `id`.
pub open spec fn is_first_with_id(snakes: Seq<BattlesnakeView>, id: Seq<char>, i: int) -> bool {
    &&& 0 <= i < snakes.len()
    &&& snakes[i].id == id
    &&& forall|j: int| 0 <= j < i ==> (#[trigger] snakes[j]).id != id
}

/// The position of the first snake that carries `id`; meaningful when [`has_snake`] holds.
pub open spec fn snake_index(snakes: Seq<BattlesnakeView>, id: Seq<char>) -> int {
    choose|i: int| is_first_with_id(snakes, id, i)
}

/// Two positions that are both first for one identifier are the same position.
pub proof fn lemma_first_with_id_unique(snakes: Seq<BattlesnakeView>, id: Seq<char>, i: int)
    requires
        is_first_with_id(snakes, id, i),
    ensures
        snake_index(snakes, id) == i,
        has_snake(snakes, id),
{
    let k = snake_index(snakes, id);
    assert(is_first_with_id(snakes, id, k));
    if k < i {
        assert(snakes[k].id != id);
    }
    if i < k {
        assert(snakes[i].id != id);
    }
}

/// Among the snakes up to position `n`, where the snake at `n` carries `id`,
/// one is the first to carry it.
pub proof fn lemma_first_with_id_upto(snakes: Seq<BattlesnakeView>, id: Seq<char>, n: int) -> (k:
    int)
    requires
        0 <= n < snakes.len(),
        snakes[n].id == id,
    ensures
        is_first_with_id(snakes, id, k),
    decreases n,
{
    if exists|j: int| 0 <= j < n && (#[trigger] snakes[j]).id == id {
        let j = choose|j: int| 0 <= j < n && (#[trigger] snakes[j]).id == id;
        lemma_first_with_id_upto(snakes, id, j)
    } else {
        n
    }
}

/// Where a snake carries `id`, [`snake_index`] is the first position that does.
pub proof fn lemma_snake_index_is_first(snakes: Seq<BattlesnakeView>, id: Seq<char>)
    requires
        has_snake(snakes, id),
    ensures
        is_first_with_id(snakes, id, snake_index(snakes, id)),
{
    let n = choose|i: int| 0 <= i < snakes.len() && #[trigger] snakes[i].id == id;
    let k = lemma_first_with_id_upto(snakes, id, n);
}

/// Finds the first snake that carries `id`.
pub fn find_snake(snakes: &Vec<Battlesnake>, id: &String) -> (found: Option<usize>)
    ensures
        match found {
            Some(i) => is_first_with_id(snakes_view(snakes@), id@, i as int) && snake_index(
                snakes_view(snakes@),
                id@,
            ) == i,
            None => !has_snake(snakes_view(snakes@), id@),
        },
{
    let mut i: usize = 0;
    while i < snakes.len()
        invariant
            i <= snakes.len(),
            forall|j: int| 0 <= j < i ==> (#[trigger] snakes_view(snakes@)[j]).id != id@,
        decreases snakes.len() - i,
    {
        if snakes[i].id == *id {
            proof {
                lemma_first_with_id_unique(snakes_view(snakes@), id@, i as int);
            }
            return Some(i);
        }
        i += 1;
    }
    None
}

} // verus!
