use battlesnake_rs::scoring::{score, MAX_DEPTH, SCORE_LOSE, SCORE_WIN};
use battlesnake_rs::types::{Battlesnake, Board, Coordinate, Game, GameState};

fn cell(x: i32, y: i32) -> Coordinate {
    Coordinate { x, y }
}

fn snake(id: &str, health: u8, body: Vec<Coordinate>) -> Battlesnake {
    Battlesnake {
        id: id.to_owned(),
        name: id.to_owned(),
        health,
        head: body[0],
        length: body.len() as u64,
        body,
        shout: None,
        squad: None,
    }
}

fn duel(me: Battlesnake, other: Battlesnake) -> GameState {
    GameState {
        game: Game { id: "".to_owned(), ruleset: None, timeout: 500 },
        turn: 0,
        board: Board {
            height: 11,
            width: 11,
            food: vec![],
            hazards: vec![],
            snakes: vec![other, me.clone()],
        },
        you: me,
    }
}

#[test]
fn head_on_collision_longer_snake_wins() {
    let me = snake("me", 90, vec![cell(5, 5), cell(5, 4), cell(5, 3)]);
    let other = snake("other", 90, vec![cell(5, 5), cell(6, 5)]);
    let state = duel(me, other);
    assert_eq!(score(&state, 0), Some(SCORE_WIN));
    assert_eq!(score(&state, 2), Some(SCORE_WIN - 2));
    assert_eq!(score(&state, 4), Some(196));
}

#[test]
fn head_on_collision_shorter_snake_loses() {
    let me = snake("me", 90, vec![cell(5, 5), cell(5, 4)]);
    let other = snake("other", 90, vec![cell(5, 5), cell(6, 5), cell(7, 5)]);
    let state = duel(me, other);
    assert_eq!(score(&state, 0), Some(SCORE_LOSE));
    assert_eq!(score(&state, 2), Some(SCORE_LOSE + 2));
    assert_eq!(score(&state, 6), Some(-194));
}

#[test]
fn head_on_collision_equal_length_is_a_loss() {
    let me = snake("me", 90, vec![cell(5, 5), cell(5, 4)]);
    let other = snake("other", 90, vec![cell(5, 5), cell(6, 5)]);
    let state = duel(me, other);
    assert_eq!(score(&state, 2), Some(-198));
}

#[test]
fn head_on_collision_waits_for_the_end_of_the_round() {
    let me = snake("me", 90, vec![cell(5, 5), cell(5, 4), cell(5, 3)]);
    let other = snake("other", 90, vec![cell(5, 5), cell(6, 5)]);
    let state = duel(me, other);
    assert_eq!(score(&state, 1), None);
}

#[test]
fn horizon_with_opponent_close_in_length_plays_for_survival() {
    let me = snake("me", 86, vec![cell(1, 1), cell(1, 2), cell(1, 3), cell(1, 4), cell(1, 5)]);
    let other = snake("other", 90, vec![cell(8, 8), cell(8, 7), cell(8, 6)]);
    let state = duel(me, other);
    // other + 4 > own length: -100 + 86 / 10 + 5, not 5 - 3
    assert_eq!(score(&state, MAX_DEPTH), Some(-87));
}

#[test]
fn horizon_with_a_clear_lead_is_the_length_difference() {
    let me = snake(
        "me",
        86,
        vec![cell(1, 1), cell(1, 2), cell(1, 3), cell(1, 4), cell(1, 5), cell(1, 6)],
    );
    let other = snake("other", 90, vec![cell(8, 8), cell(8, 7)]);
    let state = duel(me, other);
    assert_eq!(score(&state, MAX_DEPTH), Some(4));
}

#[test]
fn before_the_horizon_play_goes_on() {
    let me = snake("me", 86, vec![cell(1, 1), cell(1, 2)]);
    let other = snake("other", 90, vec![cell(8, 8), cell(8, 7)]);
    let state = duel(me, other);
    assert_eq!(score(&state, 0), None);
    assert_eq!(score(&state, 12), None);
    assert_eq!(score(&state, 13), None);
}

#[test]
fn leaving_the_board_is_a_loss() {
    let me = snake("me", 86, vec![cell(-1, 1), cell(0, 1)]);
    let other = snake("other", 90, vec![cell(8, 8), cell(8, 7)]);
    let state = duel(me, other);
    assert_eq!(score(&state, 1), Some(-199));
}

#[test]
fn opponent_leaving_the_board_is_a_win() {
    let me = snake("me", 86, vec![cell(1, 1), cell(0, 1)]);
    let other = snake("other", 90, vec![cell(11, 8), cell(10, 8)]);
    let state = duel(me, other);
    assert_eq!(score(&state, 2), Some(198));
}

#[test]
fn running_into_the_opponent_is_a_loss() {
    let me = snake("me", 86, vec![cell(8, 7), cell(7, 7)]);
    let other = snake("other", 90, vec![cell(8, 8), cell(8, 7), cell(8, 6)]);
    let state = duel(me, other);
    assert_eq!(score(&state, 3), Some(-197));
}

#[test]
fn running_into_oneself_counts_after_the_first_ply() {
    let me = snake("me", 86, vec![cell(1, 1), cell(1, 2), cell(2, 2), cell(2, 1), cell(1, 1)]);
    let other = snake("other", 90, vec![cell(8, 8), cell(8, 7)]);
    let state = duel(me, other);
    assert_eq!(score(&state, 0), None);
    assert_eq!(score(&state, 1), Some(-199));
}

#[test]
fn opponent_running_into_itself_is_a_win() {
    let me = snake("me", 86, vec![cell(1, 1), cell(1, 2)]);
    let other =
        snake("other", 90, vec![cell(8, 8), cell(8, 7), cell(9, 7), cell(9, 8), cell(8, 8)]);
    let state = duel(me, other);
    assert_eq!(score(&state, 1), Some(199));
}
