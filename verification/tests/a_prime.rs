use battlesnake_rs::a_prime::{
    can_search, dist_between, dist_between_new, hueristic, pop_best, APrimeCalculable,
    APrimeNextDirection, APrimeOptions,
};
use battlesnake_rs::compact::CellBoard;
use battlesnake_rs::search_state::Node;
use battlesnake_rs::types::{Battlesnake, Board, Coordinate, Direction, Game, GameState};

fn at(x: i32, y: i32) -> Coordinate {
    Coordinate { x, y }
}

fn a_snake(id: &str, health: u8, body: Vec<Coordinate>, length: u64) -> Battlesnake {
    Battlesnake {
        id: id.to_owned(),
        name: "".to_owned(),
        health,
        head: body[0],
        length,
        body,
        shout: Some("".to_owned()),
        squad: None,
    }
}

fn a_game(
    width: u32,
    height: u32,
    snakes: Vec<Battlesnake>,
    food: Vec<Coordinate>,
    hazards: Vec<Coordinate>,
) -> GameState {
    let you = snakes[snakes.len() - 1].clone();
    GameState {
        game: Game { id: "".to_owned(), ruleset: None, timeout: 500 },
        turn: 60,
        board: Board { height, width, food, hazards, snakes },
        you,
    }
}

fn lone_snake_game() -> GameState {
    a_game(11, 11, vec![a_snake("", 86, vec![at(10, 4)], 1)], vec![], vec![])
}

fn two_snake_game() -> GameState {
    a_game(
        11,
        11,
        vec![
            a_snake("", 93, vec![at(7, 10), at(6, 10), at(5, 10), at(4, 10)], 4),
            a_snake("", 99, vec![at(5, 4), at(5, 5), at(4, 5), at(3, 5), at(2, 5)], 4),
        ],
        vec![],
        vec![],
    )
}

fn start_of_game() -> GameState {
    let snakes = vec![
        a_snake("gs_YkwKKSmYwqFFgDk9BycMvWf8", 99, vec![at(0, 5), at(1, 5), at(1, 5)], 3),
        a_snake("gs_6QpMpVPy7RpRxvcC9cc9V3xF", 99, vec![at(4, 1), at(5, 1), at(5, 1)], 3),
        a_snake("gs_6kQVWJXt9BFpD6dchrmX8qpM", 99, vec![at(9, 0), at(9, 1), at(9, 1)], 3),
        a_snake("gs_vbvwfwk6jBc4jmCrKCbdJh3G", 99, vec![at(5, 8), at(5, 9), at(5, 9)], 3),
    ];
    a_game(11, 11, snakes, vec![at(0, 4), at(4, 8), at(4, 0), at(8, 0), at(5, 5)], vec![])
}

#[test]
fn test_heuristic() {
    assert_eq!(hueristic(&at(1, 1), &[at(2, 2)]), Some(2));
}

#[test]
fn test_multi_target_heuristic() {
    assert_eq!(hueristic(&at(1, 1), &[at(3, 3), at(4, 4), at(5, 5),]), Some(4));
}

#[test]
fn test_basic_a_prime() {
    let game = lone_snake_game();
    assert_eq!(
        game.shortest_distance(&at(1, 1), &[at(3, 3), at(4, 4), at(5, 5),], None),
        Some(4)
    );
    let compact: CellBoard = CellBoard::convert_from_game(&game).unwrap();
    assert_eq!(
        compact.shortest_distance(&at(1, 1), &[at(3, 3), at(4, 4), at(5, 5),], None),
        Some(4)
    );
}

#[test]
fn test_real_example() {
    let game = two_snake_game();
    assert_eq!(game.shortest_distance(&at(5, 4), &[at(7, 10),], None), Some(8));
    let compact: CellBoard = CellBoard::convert_from_game(&game).unwrap();
    assert_eq!(compact.shortest_distance(&at(5, 4), &[at(7, 10),], None), Some(8));
}

#[test]
fn test_start_of_game_path() {
    let game = start_of_game();
    let wire_path = game.shortest_path(&game.you.body[0], &game.board.food, None);
    let compact: CellBoard = CellBoard::convert_from_game(&game).unwrap();
    let compact_path = compact.shortest_path(&game.you.body[0], &game.board.food, None);
    assert_eq!(wire_path, compact_path);
    assert_eq!(wire_path, vec![at(5, 8), at(4, 8)]);
}

#[test]
fn heuristic_without_targets_is_nothing() {
    assert_eq!(hueristic(&at(1, 1), &[]), None);
}

#[test]
fn manhattan_distance_has_exact_values() {
    assert_eq!(dist_between(&at(1, 1), &at(4, 5)), 7);
    assert_eq!(dist_between(&at(4, 5), &at(1, 1)), 7);
    assert_eq!(dist_between(&at(-3, 2), &at(3, -2)), 10);
    assert_eq!(dist_between(&at(i32::MIN, i32::MIN), &at(i32::MAX, i32::MAX)), 8589934590);
    assert_eq!(dist_between_new(&lone_snake_game(), &at(0, 0), &at(10, 10)), 20);
}

#[test]
fn distance_from_a_target_to_itself_is_zero() {
    let game = two_snake_game();
    assert_eq!(game.shortest_distance(&at(3, 3), &[at(3, 3)], None), Some(0));
    assert_eq!(game.shortest_distance(&at(5, 4), &[at(5, 4)], None), Some(0));
    assert_eq!(game.shortest_distance(&at(-4, 40), &[at(-4, 40)], None), Some(0));
}

#[test]
fn path_from_head_to_itself_is_one_cell() {
    let game = lone_snake_game();
    let path = game.shortest_path(&at(10, 4), &[at(10, 4)], None);
    assert_eq!(path, vec![at(10, 4)]);
}

#[test]
fn path_length_less_one_is_the_distance_on_plain_cells() {
    let game = two_snake_game();
    let path = game.shortest_path(&at(5, 4), &[at(7, 10)], None);
    let distance = game.shortest_distance(&at(5, 4), &[at(7, 10)], None);
    assert_eq!(path.len(), 9);
    assert_eq!(Some(path.len() as i64 - 1), distance);
    assert_eq!(path[0], at(5, 4));
    assert_eq!(path[8], at(7, 10));
    for i in 0..8 {
        assert_eq!(dist_between(&path[i], &path[i + 1]), 1);
    }
}

#[test]
fn no_targets_means_no_path() {
    let game = lone_snake_game();
    assert_eq!(game.shortest_distance(&at(1, 1), &[], None), None);
    assert_eq!(game.shortest_path(&at(1, 1), &[], None), vec![]);
    assert_eq!(game.shortest_path_next_direction(&at(1, 1), &[], None), None);
}

#[test]
fn a_walled_in_target_cannot_be_reached() {
    let wall = a_snake("", 90, vec![at(0, 1), at(1, 1), at(1, 0)], 3);
    let game = a_game(5, 5, vec![wall], vec![], vec![]);
    assert_eq!(game.shortest_distance(&at(4, 4), &[at(0, 0)], None), None);
    assert_eq!(game.shortest_path(&at(4, 4), &[at(0, 0)], None), vec![]);
    assert_eq!(game.shortest_path_next_direction(&at(4, 4), &[at(0, 0)], None), None);
    // from inside the wall the way out is closed too, but the cell itself is near
    assert_eq!(game.shortest_distance(&at(0, 0), &[at(4, 4)], None), None);
}

#[test]
fn a_target_off_the_board_cannot_be_reached() {
    let game = lone_snake_game();
    assert_eq!(game.shortest_distance(&at(1, 1), &[at(11, 1)], None), None);
    assert_eq!(game.shortest_distance(&at(1, 1), &[at(1, -1)], None), None);
}

#[test]
fn an_occupied_target_can_be_stepped_on() {
    let game = two_snake_game();
    // the target is the other snake's tail; its body stays a wall otherwise
    assert_eq!(game.shortest_distance(&at(5, 9), &[at(4, 10)], None), Some(2));
    assert_eq!(game.shortest_distance(&at(5, 9), &[at(5, 10)], None), Some(1));
}

#[test]
fn leaving_a_hazard_costs_two() {
    let lone = a_snake("", 90, vec![at(4, 4)], 1);
    let game = a_game(5, 1, vec![lone], vec![], vec![at(0, 0), at(1, 0)]);
    assert_eq!(game.shortest_distance(&at(0, 0), &[at(3, 0)], None), Some(5));
    assert_eq!(game.shortest_path(&at(0, 0), &[at(3, 0)], None).len(), 4);
}

#[test]
fn a_hazard_is_walked_around_when_that_is_cheaper() {
    let lone = a_snake("", 90, vec![at(4, 4)], 1);
    let hazards = vec![at(1, 0), at(2, 0), at(3, 0)];
    let game = a_game(5, 5, vec![lone], vec![], hazards);
    // straight through: 1 + 2 + 2 + 2 = 7; around by the second row: 6
    assert_eq!(game.shortest_distance(&at(0, 0), &[at(4, 0)], None), Some(6));
    let path = game.shortest_path(&at(0, 0), &[at(4, 0)], None);
    assert_eq!(path.len(), 7);
}

#[test]
fn leaving_food_costs_the_food_penalty() {
    let lone = a_snake("", 90, vec![at(4, 4)], 1);
    let game = a_game(5, 1, vec![lone], vec![at(1, 0), at(2, 0)], vec![]);
    let dear = Some(APrimeOptions { food_penalty: 3 });
    assert_eq!(game.shortest_distance(&at(0, 0), &[at(3, 0)], None), Some(3));
    assert_eq!(game.shortest_distance(&at(0, 0), &[at(3, 0)], dear), Some(9));
    let none = Some(APrimeOptions { food_penalty: 0 });
    assert_eq!(game.shortest_distance(&at(0, 0), &[at(3, 0)], none), Some(3));
}

#[test]
fn a_cell_that_is_hazard_and_food_costs_as_a_hazard() {
    let lone = a_snake("", 90, vec![at(4, 4)], 1);
    let game = a_game(5, 1, vec![lone], vec![at(1, 0)], vec![at(1, 0)]);
    let dear = Some(APrimeOptions { food_penalty: 7 });
    assert_eq!(game.shortest_distance(&at(0, 0), &[at(2, 0)], dear), Some(3));
}

#[test]
fn the_nearest_of_several_targets_is_taken() {
    let game = lone_snake_game();
    let targets = [at(9, 9), at(2, 3), at(0, 10)];
    assert_eq!(game.shortest_distance(&at(1, 1), &targets, None), Some(3));
    let path = game.shortest_path(&at(1, 1), &targets, None);
    assert_eq!(path[path.len() - 1], at(2, 3));
}

#[test]
fn next_direction_is_the_first_step() {
    let game = lone_snake_game();
    assert_eq!(
        game.shortest_path_next_direction(&at(5, 5), &[at(5, 8)], None),
        Some(Direction::UP)
    );
    assert_eq!(
        game.shortest_path_next_direction(&at(5, 5), &[at(5, 1)], None),
        Some(Direction::DOWN)
    );
    assert_eq!(
        game.shortest_path_next_direction(&at(5, 5), &[at(1, 5)], None),
        Some(Direction::LEFT)
    );
    assert_eq!(
        game.shortest_path_next_direction(&at(5, 5), &[at(9, 5)], None),
        Some(Direction::RIGHT)
    );
    assert_eq!(game.board.shortest_path_next_direction(&at(5, 5), &[at(5, 5)], None), None);
}

#[test]
fn a_start_off_the_board_can_step_onto_it() {
    let game = lone_snake_game();
    assert_eq!(game.shortest_distance(&at(-1, 3), &[at(2, 3)], None), Some(3));
    assert_eq!(game.shortest_distance(&at(-2, 3), &[at(2, 3)], None), None);
}

#[test]
fn a_search_is_admitted_on_ordinary_boards_only() {
    let game = lone_snake_game();
    assert!(can_search(&game.board, &None));
    assert!(can_search(&game.board, &Some(APrimeOptions { food_penalty: i32::MAX })));
    assert!(!can_search(&game.board, &Some(APrimeOptions { food_penalty: -1 })));
    let mut vast = lone_snake_game();
    vast.board.width = u32::MAX;
    vast.board.height = u32::MAX;
    assert!(!can_search(&vast.board, &None));
    vast.board.height = 0x1fff_ffff;
    assert!(can_search(&vast.board, &None));
    assert!(!can_search(&vast.board, &Some(APrimeOptions { food_penalty: 1 })));
}

#[test]
fn the_entry_that_leaves_first_is_the_cheapest_and_then_the_greatest_cell() {
    let mut open = vec![
        Node { cost: 4, coordinate: at(1, 1) },
        Node { cost: 2, coordinate: at(4, 8) },
        Node { cost: 2, coordinate: at(6, 8) },
        Node { cost: 2, coordinate: at(6, 7) },
        Node { cost: 3, coordinate: at(9, 9) },
    ];
    assert_eq!(pop_best(&mut open), Some(Node { cost: 2, coordinate: at(6, 8) }));
    assert_eq!(pop_best(&mut open), Some(Node { cost: 2, coordinate: at(6, 7) }));
    assert_eq!(pop_best(&mut open), Some(Node { cost: 2, coordinate: at(4, 8) }));
    assert_eq!(pop_best(&mut open), Some(Node { cost: 3, coordinate: at(9, 9) }));
    assert_eq!(pop_best(&mut open), Some(Node { cost: 4, coordinate: at(1, 1) }));
    assert!(open.is_empty());
    assert_eq!(pop_best(&mut open), None);
}

#[test]
fn the_estimate_never_exceeds_the_real_cost() {
    let game = two_snake_game();
    let targets = [at(7, 10), at(0, 0)];
    for x in 0..11 {
        for y in 0..11 {
            let estimate = hueristic(&at(x, y), &targets).unwrap();
            if let Some(real) = game.shortest_distance(&at(x, y), &targets, None) {
                assert!(estimate <= real);
            }
        }
    }
    // behind the other snake the way is longer than the estimate
    assert_eq!(hueristic(&at(5, 4), &[at(5, 6)]), Some(2));
    assert_eq!(game.shortest_distance(&at(5, 4), &[at(5, 6)], None), Some(4));
}

#[test]
fn the_board_itself_can_be_searched() {
    let game = two_snake_game();
    let board: Board = game.board.clone();
    assert_eq!(board.shortest_distance(&at(5, 4), &[at(7, 10)], None), Some(8));
    assert_eq!(
        board.shortest_path(&at(5, 4), &[at(7, 10)], None),
        game.shortest_path(&at(5, 4), &[at(7, 10)], None)
    );
}

#[test]
fn the_cell_board_agrees_with_the_list_board() {
    let lone = a_snake("", 90, vec![at(4, 4), at(4, 3), at(3, 3)], 3);
    let hazards = vec![at(1, 0), at(2, 0), at(3, 0), at(2, 2)];
    let food = vec![at(1, 1), at(0, 4)];
    let game = a_game(5, 5, vec![lone], food, hazards);
    let compact = CellBoard::convert_from_game(&game).unwrap();
    let dear = Some(APrimeOptions { food_penalty: 2 });
    for sx in -1..6 {
        for sy in -1..6 {
            for target in [at(4, 0), at(0, 4), at(4, 4), at(3, 3), at(2, 2), at(9, 9)] {
                let start = at(sx, sy);
                assert_eq!(
                    compact.shortest_distance(&start, &[target], dear),
                    game.shortest_distance(&start, &[target], dear)
                );
                assert_eq!(
                    compact.shortest_path(&start, &[target], None),
                    game.shortest_path(&start, &[target], None)
                );
                assert_eq!(
                    compact.shortest_path_next_direction(&start, &[target], None),
                    game.shortest_path_next_direction(&start, &[target], None)
                );
            }
        }
    }
    assert_eq!(compact.shortest_distance(&at(0, 0), &[at(4, 0)], None), Some(6));
    assert_eq!(compact.shortest_distance(&at(1, 0), &[at(3, 0)], None), Some(4));
    assert_eq!(compact.shortest_distance(&at(0, 1), &[at(2, 1)], dear), Some(4));
}

#[test]
fn only_boards_that_fit_are_held_cell_by_cell() {
    let mut game = lone_snake_game();
    assert!(CellBoard::convert_from_game(&game).is_some());
    game.board.food.push(at(11, 0));
    assert!(CellBoard::convert_from_game(&game).is_none());
    game.board.food.clear();
    game.board.hazards.push(at(0, -1));
    assert!(CellBoard::convert_from_game(&game).is_none());
    game.board.hazards.clear();
    game.board.width = 256;
    game.board.height = 256;
    assert!(CellBoard::convert_from_game(&game).is_some());
    game.board.height = 257;
    assert!(CellBoard::convert_from_game(&game).is_none());
    // a snake that hangs over the edge is held as far as it is on the board
    let mut over = two_snake_game();
    over.board.snakes[0].body = vec![at(10, 10), at(11, 10), at(12, 10)];
    let compact = CellBoard::convert_from_game(&over).unwrap();
    assert_eq!(
        compact.shortest_distance(&at(9, 10), &[at(10, 9)], None),
        over.shortest_distance(&at(9, 10), &[at(10, 9)], None)
    );
    assert_eq!(compact.shortest_distance(&at(9, 10), &[at(10, 9)], None), Some(2));
}
