use battlesnake_rs::api::BattlesnakeAI;
use battlesnake_rs::eremetic_eric::{
    board_nearly_full, choose_meal, circle_body, closest_part, cost_of_meal, empty_neighbors,
    has_unique_elements, lonely_board_of, nearest_food_cost, EremeticEric,
};
use battlesnake_rs::types::{
    Battlesnake, Board, Coordinate, Direction, Game, GameError, GameState,
};

fn xy(x: i32, y: i32) -> Coordinate {
    Coordinate { x, y }
}

fn hermit(health: u8, body: Vec<Coordinate>) -> Battlesnake {
    Battlesnake {
        id: "eric".to_owned(),
        name: "eric".to_owned(),
        health,
        head: body[0],
        length: body.len() as u64,
        body,
        shout: None,
        squad: None,
    }
}

fn game(turn: u64, width: u32, height: u32, you: Battlesnake, food: Vec<Coordinate>) -> GameState {
    GameState {
        game: Game { id: "".to_owned(), ruleset: None, timeout: 500 },
        turn,
        board: Board { height, width, food, hazards: vec![], snakes: vec![you.clone()] },
        you,
    }
}

fn ring() -> Vec<Coordinate> {
    vec![xy(2, 2), xy(2, 3), xy(3, 3), xy(3, 2)]
}

#[test]
fn unique_elements_are_told_from_repeated_ones() {
    assert!(has_unique_elements(&[]));
    assert!(has_unique_elements(&[xy(1, 1)]));
    assert!(has_unique_elements(&[xy(1, 1), xy(1, 2), xy(2, 1)]));
    assert!(!has_unique_elements(&[xy(1, 1), xy(1, 2), xy(1, 1)]));
    assert!(!has_unique_elements(&[xy(5, 8), xy(5, 9), xy(5, 9)]));
}

#[test]
fn the_closest_part_is_the_first_of_the_nearest() {
    let body = ring();
    assert_eq!(closest_part(&body, &xy(2, 5)), (1, 2));
    assert_eq!(closest_part(&body, &xy(0, 2)), (0, 2));
    // (2, 3) and (3, 2) are both two steps from (3, 4)... and (3, 3) is one
    assert_eq!(closest_part(&body, &xy(3, 4)), (2, 1));
    // two parts at the same distance: the first is taken
    assert_eq!(closest_part(&body, &xy(4, 4)), (2, 2));
    assert_eq!(closest_part(&[xy(0, 1), xy(1, 0)], &xy(1, 1)), (0, 1));
}

#[test]
fn the_nearest_food_cost_is_the_least_over_all_food() {
    let body = ring();
    assert_eq!(nearest_food_cost(&[xy(9, 9), xy(2, 5), xy(0, 0)], &body), 2);
    assert_eq!(nearest_food_cost(&[xy(9, 9)], &body), 12);
    assert_eq!(nearest_food_cost(&[xy(3, 3)], &body), 0);
}

#[test]
fn the_circle_closes_the_body() {
    let state = game(5, 11, 11, hermit(90, vec![xy(2, 2), xy(2, 3), xy(2, 4)]), vec![xy(9, 9)]);
    assert_eq!(
        circle_body(&state),
        vec![xy(2, 2), xy(2, 3), xy(2, 4), xy(3, 2), xy(3, 3), xy(3, 4)]
    );
    let closed = game(5, 11, 11, hermit(90, ring()), vec![xy(9, 9)]);
    assert_eq!(circle_body(&closed), ring());
}

#[test]
fn the_board_is_nearly_full_from_95_in_100() {
    let mut long = vec![];
    for x in 0..10 {
        for y in 0..10 {
            long.push(xy(x, y));
        }
    }
    let mut state = game(5, 10, 10, hermit(90, long), vec![]);
    assert!(board_nearly_full(&state.board));
    state.board.snakes[0].body.truncate(95);
    assert!(board_nearly_full(&state.board));
    state.board.snakes[0].body.truncate(94);
    assert!(!board_nearly_full(&state.board));
    let roomy = game(5, 11, 11, hermit(90, ring()), vec![]);
    assert!(!board_nearly_full(&roomy.board));
    let nothing = game(5, 0, 7, hermit(90, ring()), vec![]);
    assert!(board_nearly_full(&nothing.board));
}

#[test]
fn empty_neighbours_are_free_cells_on_the_board() {
    let state = game(5, 11, 11, hermit(90, ring()), vec![]);
    assert_eq!(empty_neighbors(&state.board, &xy(3, 2)), vec![xy(4, 2), xy(3, 1)]);
    assert_eq!(empty_neighbors(&state.board, &xy(0, 0)), vec![xy(0, 1), xy(1, 0)]);
    assert_eq!(
        empty_neighbors(&state.board, &xy(2, 4)),
        vec![xy(2, 5), xy(3, 4), xy(1, 4)]
    );
}

#[test]
fn a_meal_costs_the_way_there_and_back() {
    let state = game(5, 11, 11, hermit(90, ring()), vec![xy(2, 5), xy(4, 3)]);
    let lonely = lonely_board_of(&state);
    assert_eq!(lonely.snakes.len(), 1);
    assert_eq!(lonely.snakes[0].body, ring());
    let body = circle_body(&state);
    // nearest part of the circle to (2, 5) is (2, 3) at position 1: three
    // steps along the circle, two to the food, and five back to (2, 2)
    // around the body
    assert_eq!(cost_of_meal(&state, &lonely, &body, &xy(2, 5), 2), 3 + 2 + 5);
    // nearest part to (4, 3) is (3, 3) at position 2: two steps along the
    // circle, one to the food, and four back to (2, 3) around the body, by
    // (4, 4), (3, 4) and (2, 4)
    assert_eq!(cost_of_meal(&state, &lonely, &body, &xy(4, 3), 1), 2 + 1 + 4);
    let starving = game(5, 11, 11, hermit(4, ring()), vec![xy(2, 5)]);
    assert_eq!(cost_of_meal(&starving, &lonely, &body, &xy(2, 5), 2), 6666);
}

#[test]
fn the_cheapest_of_the_nearest_meals_is_chosen() {
    // both foods are one step from the circle
    let state = game(5, 11, 11, hermit(90, ring()), vec![xy(9, 9), xy(4, 3), xy(1, 2)]);
    let lonely = lonely_board_of(&state);
    let body = circle_body(&state);
    assert_eq!(nearest_food_cost(&state.board.food, &body), 1);
    // (1, 2) is next to the head: nothing along the circle, one to the food,
    // and four back to the tail (3, 2) below the head
    assert_eq!(cost_of_meal(&state, &lonely, &body, &xy(1, 2), 1), 0 + 1 + 4);
    assert_eq!(cost_of_meal(&state, &lonely, &body, &xy(4, 3), 1), 2 + 1 + 4);
    assert_eq!(choose_meal(&state, &lonely, &body, 1), 2);
}

#[test]
fn in_the_early_turns_the_hermit_heads_for_food() {
    let state = game(1, 11, 11, hermit(99, vec![xy(5, 8), xy(5, 9), xy(5, 9)]), vec![xy(0, 4), xy(4, 8), xy(5, 5)]);
    assert_eq!(EremeticEric {}.choose_direction(&state), Ok(Direction::LEFT));
    let out = EremeticEric {}.make_move(state).unwrap();
    assert_eq!(out.chosen_move, "left");
    assert_eq!(out.shout, None);
}

#[test]
fn a_healthy_hermit_follows_its_tail() {
    let state = game(30, 11, 11, hermit(100, ring()), vec![xy(9, 9)]);
    assert_eq!(EremeticEric {}.choose_direction(&state), Ok(Direction::RIGHT));
}

#[test]
fn a_hungry_hermit_leaves_for_the_meal() {
    let state = game(30, 11, 11, hermit(3, ring()), vec![xy(1, 2), xy(9, 9)]);
    assert_eq!(EremeticEric {}.choose_direction(&state), Ok(Direction::LEFT));
    let fed = game(30, 11, 11, hermit(60, ring()), vec![xy(1, 2), xy(9, 9)]);
    assert_eq!(EremeticEric {}.choose_direction(&fed), Ok(Direction::RIGHT));
}

#[test]
fn a_hermit_that_lies_on_itself_looks_for_room_behind_its_tail() {
    let state = game(3, 11, 11, hermit(99, vec![xy(5, 8), xy(5, 9), xy(5, 9)]), vec![xy(0, 0)]);
    assert_eq!(EremeticEric {}.choose_direction(&state), Ok(Direction::RIGHT));
    assert!(EremeticEric {}.ran_into_itself(&state));
    assert!(!EremeticEric {}.ran_into_itself(&game(3, 11, 11, hermit(99, ring()), vec![])));
}

#[test]
fn a_hermit_without_a_way_goes_up() {
    // a single cell: head and tail are one, so there is no step to take
    let state = game(30, 11, 11, hermit(100, vec![xy(4, 4)]), vec![xy(9, 9)]);
    assert_eq!(EremeticEric {}.choose_direction(&state), Ok(Direction::UP));
}

#[test]
fn a_hermit_that_must_eat_but_cannot_fails() {
    // the food lies under the head: there is no first step towards it
    let state = game(30, 11, 11, hermit(1, ring()), vec![xy(2, 2)]);
    assert_eq!(EremeticEric {}.choose_direction(&state), Err(GameError::NoPath));
    assert!(matches!(EremeticEric {}.make_move(state), Err(GameError::NoPath)));
}

#[test]
fn malformed_states_are_refused() {
    let mut bodiless = game(30, 11, 11, hermit(100, ring()), vec![xy(9, 9)]);
    bodiless.you.body.clear();
    assert_eq!(EremeticEric {}.choose_direction(&bodiless), Err(GameError::NoBody));
    let hungry = game(30, 11, 11, hermit(100, ring()), vec![]);
    assert_eq!(EremeticEric {}.choose_direction(&hungry), Err(GameError::NoFood));
    let vast = game(30, u32::MAX, u32::MAX, hermit(100, ring()), vec![xy(9, 9)]);
    assert_eq!(EremeticEric {}.choose_direction(&vast), Err(GameError::NoSearch));
}

#[test]
fn the_hermit_presents_itself() {
    let eric = EremeticEric {};
    assert_eq!(eric.name(), "eremetic-eric");
    let about = eric.about();
    assert_eq!(about.apiversion, "1");
    assert_eq!(about.author, Some("coreyja".to_owned()));
    assert_eq!(about.color, Some("#FF4444".to_owned()));
    assert_eq!(about.head, None);
    assert_eq!(about.tail, None);
    assert_eq!(about.version, None);
}
