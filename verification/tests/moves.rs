use battlesnake_rs::moves::{MoveResult, SnakeMove, FULL_HEALTH, HAZARD_DAMAGE};
use battlesnake_rs::types::{
    Battlesnake, Board, Coordinate, Direction, Game, GameError, GameState,
};

fn c(x: i32, y: i32) -> Coordinate {
    Coordinate { x, y }
}

fn snake_of(id: &str, health: u8, body: Vec<Coordinate>) -> Battlesnake {
    Battlesnake {
        id: id.to_owned(),
        name: id.to_owned(),
        health,
        head: body[0],
        length: body.len() as u64,
        body,
        shout: None,
        squad: None,
    }
}

fn state() -> GameState {
    let me = snake_of("me", 80, vec![c(2, 2), c(2, 1), c(2, 0)]);
    let other = snake_of("other", 3, vec![c(6, 6), c(6, 7)]);
    GameState {
        game: Game { id: "g".to_owned(), ruleset: None, timeout: 500 },
        turn: 4,
        board: Board {
            height: 11,
            width: 11,
            food: vec![c(9, 9), c(2, 3), c(0, 0)],
            hazards: vec![c(3, 2), c(6, 5)],
            snakes: vec![me.clone(), other],
        },
        you: me,
    }
}

fn same_board(a: &GameState, b: &GameState) {
    assert_eq!(a.board.food, b.board.food);
    assert_eq!(a.board.hazards, b.board.hazards);
    assert_eq!(a.board.snakes.len(), b.board.snakes.len());
    for i in 0..a.board.snakes.len() {
        assert_eq!(a.board.snakes[i].id, b.board.snakes[i].id);
        assert_eq!(a.board.snakes[i].body, b.board.snakes[i].body);
        assert_eq!(a.board.snakes[i].health, b.board.snakes[i].health);
        assert_eq!(a.board.snakes[i].length, b.board.snakes[i].length);
        assert_eq!(a.board.snakes[i].head, b.board.snakes[i].head);
    }
    assert_eq!(a.turn, b.turn);
}

#[test]
fn a_plain_step_moves_head_and_tail() {
    let mut s = state();
    let m = s.move_to(&c(1, 2), &"me".to_owned()).unwrap();
    assert_eq!(s.board.snakes[0].body, vec![c(1, 2), c(2, 2), c(2, 1)]);
    assert_eq!(s.board.snakes[0].health, 79);
    assert_eq!(m.snake_id, "me");
    assert_eq!(m.move_result, MoveResult::MovedTail(80, c(2, 0)));
    assert_eq!(s.board.food, vec![c(9, 9), c(2, 3), c(0, 0)]);
    assert_eq!(s.board.snakes[1].body, vec![c(6, 6), c(6, 7)]);
}

#[test]
fn a_step_onto_a_hazard_costs_more_health() {
    let mut s = state();
    let m = s.move_to(&c(3, 2), &"me".to_owned()).unwrap();
    assert_eq!(HAZARD_DAMAGE, 15);
    assert_eq!(s.board.snakes[0].health, 64);
    assert_eq!(m.move_result, MoveResult::MovedTail(80, c(2, 0)));
}

#[test]
fn health_does_not_go_below_zero() {
    let mut s = state();
    s.move_to(&c(6, 5), &"other".to_owned()).unwrap();
    assert_eq!(s.board.snakes[1].health, 0);
    let m = s.move_to(&c(5, 5), &"other".to_owned()).unwrap();
    assert_eq!(s.board.snakes[1].health, 0);
    assert_eq!(m.move_result, MoveResult::MovedTail(0, c(6, 6)));
}

#[test]
fn a_step_onto_food_grows_the_snake() {
    let mut s = state();
    let m = s.move_to(&c(2, 3), &"me".to_owned()).unwrap();
    assert_eq!(FULL_HEALTH, 100);
    assert_eq!(s.board.snakes[0].body, vec![c(2, 3), c(2, 2), c(2, 1), c(2, 0)]);
    assert_eq!(s.board.snakes[0].health, 100);
    assert_eq!(s.board.food, vec![c(9, 9), c(0, 0)]);
    assert_eq!(m.move_result, MoveResult::AteFood(80, c(2, 3), 1));
    assert_eq!(s.board.snakes[0].length, 3);
}

#[test]
fn an_unknown_snake_is_refused() {
    let mut s = state();
    let r = s.move_to(&c(2, 3), &"nobody".to_owned());
    assert!(matches!(r, Err(GameError::SnakeNotFound)));
    same_board(&s, &state());
}

#[test]
fn reverting_a_plain_step_restores_the_board() {
    let mut s = state();
    let m = s.move_to(&c(1, 2), &"me".to_owned()).unwrap();
    s.reverse_move(m);
    same_board(&s, &state());
}

#[test]
fn reverting_a_hazard_step_restores_the_board() {
    let mut s = state();
    let m = s.move_to(&c(6, 5), &"other".to_owned()).unwrap();
    s.reverse_move(m);
    same_board(&s, &state());
}

#[test]
fn reverting_a_meal_restores_the_board() {
    let mut s = state();
    let m = s.move_to(&c(2, 3), &"me".to_owned()).unwrap();
    s.reverse_move(m);
    same_board(&s, &state());
}

#[test]
fn steps_are_reverted_in_reverse_order() {
    let mut s = state();
    let me = "me".to_owned();
    let other = "other".to_owned();
    let m1 = s.move_to(&c(2, 3), &me).unwrap();
    let m2 = s.move_to(&c(6, 5), &other).unwrap();
    let m3 = s.move_to(&c(2, 4), &me).unwrap();
    let m4 = s.move_to(&c(9, 9), &other).unwrap();
    assert_eq!(m4.move_result, MoveResult::AteFood(0, c(9, 9), 0));
    s.reverse_move(m4);
    s.reverse_move(m3);
    s.reverse_move(m2);
    s.reverse_move(m1);
    same_board(&s, &state());
}

#[test]
fn a_record_can_be_written_by_hand() {
    let mut s = state();
    s.reverse_move(SnakeMove { snake_id: "me".to_owned(), move_result: MoveResult::MovedTail(81, c(3, 0)) });
    assert_eq!(s.board.snakes[0].body, vec![c(2, 1), c(2, 0), c(3, 0)]);
    assert_eq!(s.board.snakes[0].health, 81);
}

#[test]
fn directions_have_names_and_steps() {
    assert_eq!(Direction::UP.value(), "up");
    assert_eq!(Direction::RIGHT.value(), "right");
    assert_eq!(Direction::DOWN.value(), "down");
    assert_eq!(Direction::LEFT.value(), "left");
    assert_eq!(c(3, 3).move_in(&Direction::UP), c(3, 4));
    assert_eq!(c(3, 3).move_in(&Direction::RIGHT), c(4, 3));
    assert_eq!(c(3, 3).move_in(&Direction::DOWN), c(3, 2));
    assert_eq!(c(3, 3).move_in(&Direction::LEFT), c(2, 3));
}

#[test]
fn possible_moves_stay_on_the_board() {
    let s = state();
    assert_eq!(
        c(5, 5).possbile_moves(&s.board),
        vec![
            (Direction::UP, c(5, 6)),
            (Direction::RIGHT, c(6, 5)),
            (Direction::DOWN, c(5, 4)),
            (Direction::LEFT, c(4, 5)),
        ]
    );
    assert_eq!(
        c(0, 0).possbile_moves(&s.board),
        vec![(Direction::UP, c(0, 1)), (Direction::RIGHT, c(1, 0))]
    );
    assert_eq!(
        c(10, 10).possbile_moves(&s.board),
        vec![(Direction::DOWN, c(10, 9)), (Direction::LEFT, c(9, 10))]
    );
    assert_eq!(c(20, 20).possbile_moves(&s.board), vec![]);
    assert_eq!(
        c(i32::MAX, 0).possbile_moves(&s.board),
        vec![]
    );
    assert_eq!(s.you.possbile_moves(&s.board).len(), 4);
    assert!(c(0, 10).valid(&s.board));
    assert!(!c(0, 11).valid(&s.board));
    assert!(!c(-1, 0).valid(&s.board));
}
