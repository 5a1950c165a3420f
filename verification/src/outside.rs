//! The calls into `battlesnake_game_types`, each behind a contract that is
//! taken on trust from that crate's source.

use battlesnake_game_types::types::{Move, Vector};
use battlesnake_game_types::wire_representation::Position;
use vstd::prelude::*;
use crate::types::{direction_dx, direction_dy, direction_name, Coordinate, Direction};

verus! {

/// True when `(dx, dy)` is one step along one axis.
pub open spec fn is_unit_step(dx: int, dy: int) -> bool {
    (dx == 0 && (dy == 1 || dy == -1)) || (dy == 0 && (dx == 1 || dx == -1))
}

/// Formats a `battlesnake_game_types::types::Move` with its `Display`
/// impl, which writes `left`, `right`, `up` or `down`.
#[verifier::external_body]
pub(crate) fn move_name(d: Direction) -> (name: String)
    ensures
        name@ == direction_name(d),
{
    let m = match d {
        Direction::UP => Move::Up,
        Direction::RIGHT => Move::Right,
        Direction::DOWN => Move::Down,
        Direction::LEFT => Move::Left,
    };
    format!("{}", m)
}

/// `battlesnake_game_types::types::Move::from_vector`: the move whose unit
/// vector is `(dx, dy)`, with `Up` for `(0, 1)` and `Right` for `(1, 0)`. It
/// panics on any other vector, so a unit step is required.
#[verifier::external_body]
pub(crate) fn move_from_vector(dx: i64, dy: i64) -> (d: Direction)
    requires
        is_unit_step(dx as int, dy as int),
    ensures
        direction_dx(d) == dx,
        direction_dy(d) == dy,
{
    match Move::from_vector(Vector { x: dx, y: dy }) {
        Move::Up => Direction::UP,
        Move::Right => Direction::RIGHT,
        Move::Down => Direction::DOWN,
        Move::Left => Direction::LEFT,
    }
}

/// `battlesnake_game_types::wire_representation::Position::to_vector`:
/// the vector with the two coordinates of the position.
#[verifier::external_body]
pub(crate) fn position_to_vector(c: Coordinate) -> (v: (i64, i64))
    ensures
        v.0 == c.x,
        v.1 == c.y,
{
    let v = Position { x: c.x, y: c.y }.to_vector();
    (v.x, v.y)
}

/// `battlesnake_game_types::wire_representation::Position::sub_vec`: the
/// position less the vector, coordinate by coordinate. The outside function
/// cuts a difference down to 32 bits; a difference that fits is required.
#[verifier::external_body]
pub(crate) fn position_sub_vec(c: Coordinate, v: (i64, i64)) -> (d: Coordinate)
    requires
        i32::MIN <= c.x - v.0 <= i32::MAX,
        i32::MIN <= c.y - v.1 <= i32::MAX,
    ensures
        d.x == c.x - v.0,
        d.y == c.y - v.1,
{
    let p = Position { x: c.x, y: c.y }.sub_vec(Vector { x: v.0, y: v.1 });
    Coordinate { x: p.x, y: p.y }
}

} // verus!
