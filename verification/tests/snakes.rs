use battlesnake_rs::api::{AboutMe, BattlesnakeAI, BattlesnakeFactory};
use battlesnake_rs::constant_carter::{ConstantCarter, ConstantCarterFactory};
use battlesnake_rs::devious_devin::DeviousDevin;
use battlesnake_rs::moves::SnakeTailPushableGame;
use battlesnake_rs::types::{Battlesnake, Board, Coordinate, Game, GameError, GameState};

fn any_state() -> GameState {
    let me = Battlesnake {
        id: "me".to_owned(),
        name: "me".to_owned(),
        health: 50,
        body: vec![Coordinate { x: 1, y: 1 }, Coordinate { x: 1, y: 2 }],
        head: Coordinate { x: 1, y: 1 },
        length: 2,
        shout: None,
        squad: None,
    };
    GameState {
        game: Game { id: "".to_owned(), ruleset: None, timeout: 500 },
        turn: 0,
        board: Board { height: 7, width: 7, food: vec![], hazards: vec![], snakes: vec![me.clone()] },
        you: me,
    }
}

#[test]
fn the_default_about_has_only_the_api_version() {
    let about = AboutMe::default();
    assert_eq!(about.apiversion, "1");
    assert_eq!(about.author, None);
    assert_eq!(about.color, None);
    assert_eq!(about.head, None);
    assert_eq!(about.tail, None);
    assert_eq!(about.version, None);
}

#[test]
fn constant_carter_always_turns_right() {
    let out = ConstantCarter {}.make_move(any_state()).unwrap();
    assert_eq!(out.chosen_move, "right");
    assert_eq!(out.shout, None);
    assert_eq!(ConstantCarter {}.name(), "constant-carter");
    assert_eq!(ConstantCarter {}.about().apiversion, "1");
}

#[test]
fn the_factory_makes_constant_carter() {
    let factory = ConstantCarterFactory;
    assert_eq!(factory.name(), "constant-carter");
    let about = factory.about();
    assert_eq!(about.apiversion, "1");
    assert_eq!(about.author, Some("coreyja".to_owned()));
    assert_eq!(about.color, Some("#AA66CC".to_owned()));
    assert_eq!(about.head, None);
    let snake = factory.from_wire_game(any_state());
    assert_eq!(snake.make_move(any_state()).unwrap().chosen_move, "right");
}

#[test]
fn devious_devin_presents_itself() {
    let devin = DeviousDevin {};
    assert_eq!(devin.name(), "devious-devin");
    let about = devin.about();
    assert_eq!(about.apiversion, "1");
    assert_eq!(about.author, Some("coreyja".to_owned()));
    assert_eq!(about.color, Some("#99cc00".to_owned()));
    assert_eq!(about.head, Some("snail".to_owned()));
    assert_eq!(about.tail, Some("rbc-necktie".to_owned()));
    assert_eq!(about.version, None);
}

#[test]
fn a_tail_can_be_pushed() {
    let mut state = any_state();
    let r = state.push_tail(&"me".to_owned(), Coordinate { x: 1, y: 3 });
    assert!(r.is_ok());
    assert_eq!(
        state.board.snakes[0].body,
        vec![Coordinate { x: 1, y: 1 }, Coordinate { x: 1, y: 2 }, Coordinate { x: 1, y: 3 }]
    );
    let r = state.push_tail(&"nobody".to_owned(), Coordinate { x: 1, y: 4 });
    assert!(matches!(r, Err(GameError::SnakeNotFound)));
    assert_eq!(state.board.snakes[0].body.len(), 3);
}
