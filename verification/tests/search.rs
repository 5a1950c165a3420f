use battlesnake_rs::api::BattlesnakeAI;
use battlesnake_rs::devious_devin::{
    best_move, check_duel, children, minimax, minimax_options, pick_best, DeviousDevin,
};
use battlesnake_rs::minimax_model::NEUTRAL_SCORE;
use battlesnake_rs::scoring::{score, MAX_DEPTH};
use battlesnake_rs::types::{
    Battlesnake, Board, Coordinate, Direction, Game, GameError, GameState,
};

fn p(x: i32, y: i32) -> Coordinate {
    Coordinate { x, y }
}

fn make_snake(id: &str, health: u8, body: Vec<Coordinate>) -> Battlesnake {
    Battlesnake {
        id: id.to_owned(),
        name: id.to_owned(),
        health,
        head: body[0],
        length: body.len() as u64,
        body,
        shout: None,
        squad: None,
    }
}

fn make_state(
    width: u32,
    height: u32,
    me: Battlesnake,
    others: Vec<Battlesnake>,
    food: Vec<Coordinate>,
    hazards: Vec<Coordinate>,
) -> GameState {
    let mut snakes = vec![me.clone()];
    for o in others {
        snakes.push(o);
    }
    GameState {
        game: Game { id: "".to_owned(), ruleset: None, timeout: 500 },
        turn: 10,
        board: Board { height, width, food, hazards, snakes },
        you: me,
    }
}

fn plain_minimax(node: &mut GameState, depth: usize, is_maximizing: bool) -> i64 {
    if let Some(s) = score(node, depth as i64) {
        return s;
    }
    let id = if is_maximizing {
        node.you.id.clone()
    } else {
        let you = node.you.id.clone();
        node.board.snakes.iter().find(|s| s.id != you).unwrap().id.clone()
    };
    let kids = children(node, &id).unwrap();
    if kids.is_empty() {
        return NEUTRAL_SCORE;
    }
    let mut best: Option<i64> = None;
    for (_, coor) in kids {
        let m = node.move_to(&coor, &id).unwrap();
        let v = plain_minimax(node, depth + 1, !is_maximizing);
        node.reverse_move(m);
        best = Some(match best {
            None => v,
            Some(b) => {
                if is_maximizing {
                    b.max(v)
                } else {
                    b.min(v)
                }
            }
        });
    }
    best.unwrap()
}

fn small_duels() -> Vec<GameState> {
    vec![
        make_state(
            5,
            5,
            make_snake("me", 90, vec![p(1, 1), p(1, 0), p(0, 0)]),
            vec![make_snake("it", 90, vec![p(3, 3), p(3, 4), p(4, 4)])],
            vec![p(2, 2)],
            vec![],
        ),
        make_state(
            4,
            4,
            make_snake("me", 20, vec![p(0, 0), p(0, 1)]),
            vec![make_snake("it", 90, vec![p(2, 1), p(2, 2), p(2, 3), p(3, 3)])],
            vec![p(1, 0), p(3, 0)],
            vec![p(1, 1)],
        ),
        make_state(
            3,
            3,
            make_snake("me", 90, vec![p(0, 0)]),
            vec![make_snake("it", 90, vec![p(2, 2)])],
            vec![],
            vec![],
        ),
        make_state(
            7,
            3,
            make_snake("me", 90, vec![p(3, 1), p(2, 1), p(1, 1), p(0, 1), p(0, 0), p(1, 0), p(2, 0)]),
            vec![make_snake("it", 90, vec![p(5, 1), p(6, 1)])],
            vec![p(4, 2)],
            vec![],
        ),
    ]
}

#[test]
fn alpha_beta_finds_the_plain_minimax_value() {
    for start in [8usize, 9, 10, 11, 12, 13, 14] {
        for state in small_duels() {
            for is_maximizing in [true, false] {
                let mut a = state.clone();
                let mut b = state.clone();
                let pruned = minimax(&mut a, start, is_maximizing, i64::MIN, i64::MAX).0;
                let plain = plain_minimax(&mut b, start, is_maximizing);
                assert_eq!(pruned, plain);
            }
        }
    }
}

#[test]
fn the_search_leaves_the_snapshot_as_it_was() {
    for state in small_duels() {
        let mut searched = state.clone();
        let _ = best_move(&mut searched);
        assert_eq!(searched.board.food, state.board.food);
        for i in 0..2 {
            assert_eq!(searched.board.snakes[i].body, state.board.snakes[i].body);
            assert_eq!(searched.board.snakes[i].health, state.board.snakes[i].health);
        }
    }
}

#[test]
fn the_best_move_has_the_value_of_the_root() {
    let mut state = small_duels().remove(2);
    let (value, dir) = best_move(&mut state);
    let options = minimax_options(&mut state, 0, true, i64::MIN, i64::MAX);
    assert_eq!(pick_best(&options, true), (value, Some(dir)));
    let first_best = options.iter().find(|o| o.0 == value).unwrap();
    assert_eq!(first_best.1, Some(dir));
}

#[test]
fn a_finished_game_has_one_option_without_direction() {
    let me = make_snake("me", 90, vec![p(-1, 0), p(0, 0)]);
    let it = make_snake("it", 90, vec![p(2, 2)]);
    let mut state = make_state(3, 3, me, vec![it], vec![], vec![]);
    assert_eq!(minimax_options(&mut state, 0, true, i64::MIN, i64::MAX), vec![(-200, None)]);
    assert_eq!(minimax(&mut state, 0, true, i64::MIN, i64::MAX), (-200, None));
    assert_eq!(best_move(&mut state), (-200, Direction::UP));
}

#[test]
fn without_options_the_choice_is_neutral() {
    assert_eq!(pick_best(&vec![], true), (0, Some(Direction::UP)));
    assert_eq!(pick_best(&vec![], false), (0, Some(Direction::UP)));
}

#[test]
fn the_first_best_option_is_picked() {
    let options = vec![
        (3, Some(Direction::UP)),
        (7, Some(Direction::RIGHT)),
        (7, Some(Direction::DOWN)),
        (1, Some(Direction::LEFT)),
        (1, None),
    ];
    assert_eq!(pick_best(&options, true), (7, Some(Direction::RIGHT)));
    assert_eq!(pick_best(&options, false), (1, Some(Direction::LEFT)));
}

#[test]
fn children_are_the_steps_that_stay_on_the_board() {
    let state = small_duels().remove(0);
    assert_eq!(
        children(&state, &"me".to_owned()).unwrap(),
        vec![
            (Direction::UP, p(1, 2)),
            (Direction::RIGHT, p(2, 1)),
            (Direction::DOWN, p(1, 0)),
            (Direction::LEFT, p(0, 1)),
        ]
    );
    let cornered = small_duels().remove(2);
    assert_eq!(
        children(&cornered, &"it".to_owned()).unwrap(),
        vec![(Direction::DOWN, p(2, 1)), (Direction::LEFT, p(1, 2))]
    );
    assert_eq!(children(&cornered, &"nobody".to_owned()), Err(GameError::SnakeNotFound));
    let mut bodiless = cornered.clone();
    bodiless.board.snakes[0].body.clear();
    assert_eq!(children(&bodiless, &"me".to_owned()), Err(GameError::NoBody));
}

#[test]
fn a_deadly_step_is_avoided() {
    // up and left leave the board, down runs into the own neck
    let me = make_snake("me", 90, vec![p(0, 4), p(0, 3), p(0, 2)]);
    let it = make_snake("it", 90, vec![p(4, 0), p(4, 1)]);
    let mut state = make_state(5, 5, me, vec![it], vec![], vec![]);
    let (_, dir) = best_move(&mut state);
    assert_eq!(dir, Direction::RIGHT);
    let out = DeviousDevin {}.make_move(state).unwrap();
    assert_eq!(out.chosen_move, "right");
    assert_eq!(out.shout, None);
}

#[test]
fn every_option_at_the_root_is_explained() {
    let me = make_snake("me", 90, vec![p(0, 4), p(0, 3), p(0, 2)]);
    let it = make_snake("it", 90, vec![p(4, 0), p(4, 1)]);
    let state = make_state(5, 5, me, vec![it], vec![], vec![]);
    let out = DeviousDevin {}.explain_move(state).unwrap();
    let dirs: Vec<Option<Direction>> = out.options.iter().map(|o| o.dir).collect();
    assert_eq!(dirs, vec![Some(Direction::RIGHT), Some(Direction::DOWN)]);
    // down is onto the own neck: lost at the first ply
    assert_eq!(out.options[1].score, -199);
    assert!(out.options[0].score > -199);
}

#[test]
fn only_duels_are_searched() {
    let me = make_snake("me", 90, vec![p(0, 4), p(0, 3)]);
    let it = make_snake("it", 90, vec![p(4, 0), p(4, 1)]);
    let third = make_snake("third", 90, vec![p(2, 2)]);
    let alone = make_state(5, 5, me.clone(), vec![], vec![], vec![]);
    let crowd = make_state(5, 5, me.clone(), vec![it.clone(), third], vec![], vec![]);
    let twins = make_state(5, 5, me.clone(), vec![make_snake("me", 90, vec![p(3, 3)])], vec![], vec![]);
    let bodiless = make_state(5, 5, me.clone(), vec![make_snake("it", 90, vec![p(3, 3)])], vec![], vec![]);
    let mut bodiless = bodiless;
    bodiless.board.snakes[1].body.clear();
    let mut stranger = make_state(5, 5, me.clone(), vec![it.clone()], vec![], vec![]);
    stranger.you.id = "someone".to_owned();
    let duel = make_state(5, 5, me, vec![it], vec![], vec![]);
    assert!(!check_duel(&alone));
    assert!(!check_duel(&crowd));
    assert!(!check_duel(&twins));
    assert!(!check_duel(&bodiless));
    assert!(!check_duel(&stranger));
    assert!(check_duel(&duel));
    assert!(matches!(DeviousDevin {}.make_move(alone), Err(GameError::NotADuel)));
    assert!(matches!(DeviousDevin {}.explain_move(crowd), Err(GameError::NotADuel)));
    assert!(DeviousDevin {}.make_move(duel).is_ok());
}

#[test]
fn the_horizon_is_fourteen_plies() {
    assert_eq!(MAX_DEPTH, 14);
}
