//! The plain terms of the game: directions, terrain, objects, actions.

use crate::codec::integers::{
    agrees, holds_at, lemma_holds_at_split, lemma_i32_roundtrip, lemma_u32_roundtrip, i32_bytes,
    parse_i32, parse_u32, read_i32, read_u32, u32_bytes, write_i32, write_u32,
};
use crate::world::{Action, Direction, LastTurnResult, Object, PowerUp, Ticks, Tile, TileOffset};
use vstd::prelude::*;

verus! {

/// The position of a direction among the directions.
pub open spec fn direction_index(direction: Direction) -> u32 {
    match direction {
        Direction::West => 0,
        Direction::North => 1,
        Direction::East => 2,
        Direction::South => 3,
    }
}

/// The direction at a position among the directions.
pub open spec fn direction_at(index: u32) -> Option<Direction> {
    if index == 0 {
        Some(Direction::West)
    } else if index == 1 {
        Some(Direction::North)
    } else if index == 2 {
        Some(Direction::East)
    } else if index == 3 {
        Some(Direction::South)
    } else {
        None
    }
}

/// The bytes that stand for a direction.
pub open spec fn direction_bytes(direction: Direction) -> Seq<u8> {
    u32_bytes(direction_index(direction))
}

/// Reads a direction at `at`: the value and the position behind it, or
/// `None` where the bytes there do not spell one.
pub open spec fn parse_direction(bytes: Seq<u8>, at: int) -> Option<(Direction, int)> {
    match parse_u32(bytes, at) {
        Some((index, next)) => match direction_at(index) {
            Some(direction) => Some((direction, next)),
            None => None,
        },
        None => None,
    }
}

/// Reading a direction from where its encoding stands gives it back, and
/// ends right behind the encoding.
pub proof fn lemma_direction_roundtrip(bytes: Seq<u8>, at: int, direction: Direction)
    requires
        holds_at(bytes, at, direction_bytes(direction)),
    ensures
        parse_direction(bytes, at) == Some((direction, at + direction_bytes(direction).len())),
{
    lemma_u32_roundtrip(bytes, at, direction_index(direction));
}

/// Appends the encoding of a direction.
pub fn write_direction(out: &mut Vec<u8>, direction: Direction)
    ensures
        final(out)@ == old(out)@ + direction_bytes(direction),
{
    let index: u32 = match direction {
        Direction::West => 0,
        Direction::North => 1,
        Direction::East => 2,
        Direction::South => 3,
    };
    write_u32(out, index);
}

/// Reads a direction at `at`, and says where the next value starts.
pub fn read_direction(bytes: &[u8], at: usize) -> (read: Option<(Direction, usize)>)
    ensures
        agrees(read, parse_direction(bytes@, at as int)),
{
    match read_u32(bytes, at) {
        Some((index, next)) => {
            if index == 0 {
                Some((Direction::West, next))
            } else if index == 1 {
                Some((Direction::North, next))
            } else if index == 2 {
                Some((Direction::East, next))
            } else if index == 3 {
                Some((Direction::South, next))
            } else {
                None
            }
        },
        None => None,
    }
}

/// The position of a terrain kind among the terrain kinds.
pub open spec fn tile_index(tile: Tile) -> u32 {
    match tile {
        Tile::Wall => 0,
        Tile::Floor => 1,
        Tile::Hill => 2,
    }
}

/// The terrain kind at a position among the terrain kinds.
pub open spec fn tile_at(index: u32) -> Option<Tile> {
    if index == 0 {
        Some(Tile::Wall)
    } else if index == 1 {
        Some(Tile::Floor)
    } else if index == 2 {
        Some(Tile::Hill)
    } else {
        None
    }
}

/// The bytes that stand for a terrain kind.
pub open spec fn tile_bytes(tile: Tile) -> Seq<u8> {
    u32_bytes(tile_index(tile))
}

/// Reads a terrain kind at `at`: the value and the position behind it, or
/// `None` where the bytes there do not spell one.
pub open spec fn parse_tile(bytes: Seq<u8>, at: int) -> Option<(Tile, int)> {
    match parse_u32(bytes, at) {
        Some((index, next)) => match tile_at(index) {
            Some(tile) => Some((tile, next)),
            None => None,
        },
        None => None,
    }
}

/// Reading a terrain kind from where its encoding stands gives it back, and
/// ends right behind the encoding.
pub proof fn lemma_tile_roundtrip(bytes: Seq<u8>, at: int, tile: Tile)
    requires
        holds_at(bytes, at, tile_bytes(tile)),
    ensures
        parse_tile(bytes, at) == Some((tile, at + tile_bytes(tile).len())),
{
    lemma_u32_roundtrip(bytes, at, tile_index(tile));
}

/// Appends the encoding of a terrain kind.
pub fn write_tile(out: &mut Vec<u8>, tile: Tile)
    ensures
        final(out)@ == old(out)@ + tile_bytes(tile),
{
    let index: u32 = match tile {
        Tile::Wall => 0,
        Tile::Floor => 1,
        Tile::Hill => 2,
    };
    write_u32(out, index);
}

/// Reads a terrain kind at `at`, and says where the next value starts.
pub fn read_tile(bytes: &[u8], at: usize) -> (read: Option<(Tile, usize)>)
    ensures
        agrees(read, parse_tile(bytes@, at as int)),
{
    match read_u32(bytes, at) {
        Some((index, next)) => {
            if index == 0 {
                Some((Tile::Wall, next))
            } else if index == 1 {
                Some((Tile::Floor, next))
            } else if index == 2 {
                Some((Tile::Hill, next))
            } else {
                None
            }
        },
        None => None,
    }
}

/// The position of a power-up among the power-ups.
pub open spec fn power_up_index(power_up: PowerUp) -> u32 {
    match power_up {
        PowerUp::BombRange => 0,
        PowerUp::SimultaneousBombs => 1,
        PowerUp::VisionRange => 2,
    }
}

/// The power-up at a position among the power-ups.
pub open spec fn power_up_at(index: u32) -> Option<PowerUp> {
    if index == 0 {
        Some(PowerUp::BombRange)
    } else if index == 1 {
        Some(PowerUp::SimultaneousBombs)
    } else if index == 2 {
        Some(PowerUp::VisionRange)
    } else {
        None
    }
}

/// The bytes that stand for a power-up.
pub open spec fn power_up_bytes(power_up: PowerUp) -> Seq<u8> {
    u32_bytes(power_up_index(power_up))
}

/// Reads a power-up at `at`: the value and the position behind it, or
/// `None` where the bytes there do not spell one.
pub open spec fn parse_power_up(bytes: Seq<u8>, at: int) -> Option<(PowerUp, int)> {
    match parse_u32(bytes, at) {
        Some((index, next)) => match power_up_at(index) {
            Some(power_up) => Some((power_up, next)),
            None => None,
        },
        None => None,
    }
}

/// Reading a power-up from where its encoding stands gives it back, and
/// ends right behind the encoding.
pub proof fn lemma_power_up_roundtrip(bytes: Seq<u8>, at: int, power_up: PowerUp)
    requires
        holds_at(bytes, at, power_up_bytes(power_up)),
    ensures
        parse_power_up(bytes, at) == Some((power_up, at + power_up_bytes(power_up).len())),
{
    lemma_u32_roundtrip(bytes, at, power_up_index(power_up));
}

/// Appends the encoding of a power-up.
pub fn write_power_up(out: &mut Vec<u8>, power_up: PowerUp)
    ensures
        final(out)@ == old(out)@ + power_up_bytes(power_up),
{
    let index: u32 = match power_up {
        PowerUp::BombRange => 0,
        PowerUp::SimultaneousBombs => 1,
        PowerUp::VisionRange => 2,
    };
    write_u32(out, index);
}

/// Reads a power-up at `at`, and says where the next value starts.
pub fn read_power_up(bytes: &[u8], at: usize) -> (read: Option<(PowerUp, usize)>)
    ensures
        agrees(read, parse_power_up(bytes@, at as int)),
{
    match read_u32(bytes, at) {
        Some((index, next)) => {
            if index == 0 {
                Some((PowerUp::BombRange, next))
            } else if index == 1 {
                Some((PowerUp::SimultaneousBombs, next))
            } else if index == 2 {
                Some((PowerUp::VisionRange, next))
            } else {
                None
            }
        },
        None => None,
    }
}

/// The bytes that stand for a number of ticks.
pub open spec fn ticks_bytes(ticks: Ticks) -> Seq<u8> {
    u32_bytes(ticks.0)
}

/// Reads a number of ticks at `at`: the value and the position behind it, or
/// `None` where the bytes there do not spell one.
pub open spec fn parse_ticks(bytes: Seq<u8>, at: int) -> Option<(Ticks, int)> {
    match parse_u32(bytes, at) {
        Some((count, next)) => Some((Ticks(count), next)),
        None => None,
    }
}

/// Reading a number of ticks from where its encoding stands gives it back, and
/// ends right behind the encoding.
pub proof fn lemma_ticks_roundtrip(bytes: Seq<u8>, at: int, ticks: Ticks)
    requires
        holds_at(bytes, at, ticks_bytes(ticks)),
    ensures
        parse_ticks(bytes, at) == Some((ticks, at + ticks_bytes(ticks).len())),
{
    lemma_u32_roundtrip(bytes, at, ticks.0);
}

/// Appends the encoding of a number of ticks.
pub fn write_ticks(out: &mut Vec<u8>, ticks: Ticks)
    ensures
        final(out)@ == old(out)@ + ticks_bytes(ticks),
{
    write_u32(out, ticks.0);
}

/// Reads a number of ticks at `at`, and says where the next value starts.
pub fn read_ticks(bytes: &[u8], at: usize) -> (read: Option<(Ticks, usize)>)
    ensures
        agrees(read, parse_ticks(bytes@, at as int)),
{
    match read_u32(bytes, at) {
        Some((count, next)) => Some((Ticks(count), next)),
        None => None,
    }
}

/// The bytes that stand for an offset.
pub open spec fn offset_bytes(offset: TileOffset) -> Seq<u8> {
    i32_bytes(offset.0) + i32_bytes(offset.1)
}

/// Reads an offset at `at`: the value and the position behind it, or
/// `None` where the bytes there do not spell one.
pub open spec fn parse_offset(bytes: Seq<u8>, at: int) -> Option<(TileOffset, int)> {
    match parse_i32(bytes, at) {
        Some((x, middle)) => match parse_i32(bytes, middle) {
            Some((y, next)) => Some((TileOffset(x, y), next)),
            None => None,
        },
        None => None,
    }
}

/// Reading an offset from where its encoding stands gives it back, and
/// ends right behind the encoding.
pub proof fn lemma_offset_roundtrip(bytes: Seq<u8>, at: int, offset: TileOffset)
    requires
        holds_at(bytes, at, offset_bytes(offset)),
    ensures
        parse_offset(bytes, at) == Some((offset, at + offset_bytes(offset).len())),
{
    lemma_holds_at_split(bytes, at, i32_bytes(offset.0), i32_bytes(offset.1));
    lemma_i32_roundtrip(bytes, at, offset.0);
    lemma_i32_roundtrip(bytes, at + 4, offset.1);
}

/// Appends the encoding of an offset.
pub fn write_offset(out: &mut Vec<u8>, offset: TileOffset)
    ensures
        final(out)@ == old(out)@ + offset_bytes(offset),
{
    write_i32(out, offset.0);
    write_i32(out, offset.1);
    assert(out@ =~= old(out)@ + offset_bytes(offset));
}

/// Reads an offset at `at`, and says where the next value starts.
pub fn read_offset(bytes: &[u8], at: usize) -> (read: Option<(TileOffset, usize)>)
    ensures
        agrees(read, parse_offset(bytes@, at as int)),
{
    match read_i32(bytes, at) {
        Some((x, middle)) => match read_i32(bytes, middle) {
            Some((y, next)) => Some((TileOffset(x, y), next)),
            None => None,
        },
        None => None,
    }
}

/// The bytes that stand for an object.
pub open spec fn object_bytes(object: Object) -> Seq<u8> {
    match object {
        Object::Bomb { fuse_remaining, range } => u32_bytes(0) + ticks_bytes(fuse_remaining)
            + u32_bytes(range),
        Object::PowerUp(power_up) => u32_bytes(1) + power_up_bytes(power_up),
        Object::Crate => u32_bytes(2),
    }
}

/// Reads an object at `at`: the value and the position behind it, or
/// `None` where the bytes there do not spell one.
pub open spec fn parse_object(bytes: Seq<u8>, at: int) -> Option<(Object, int)> {
    match parse_u32(bytes, at) {
        Some((index, body)) => {
            if index == 0 {
                match parse_ticks(bytes, body) {
                    Some((fuse_remaining, middle)) => match parse_u32(bytes, middle) {
                        Some((range, next)) => Some((Object::Bomb { fuse_remaining, range }, next)),
                        None => None,
                    },
                    None => None,
                }
            } else if index == 1 {
                match parse_power_up(bytes, body) {
                    Some((power_up, next)) => Some((Object::PowerUp(power_up), next)),
                    None => None,
                }
            } else if index == 2 {
                Some((Object::Crate, body))
            } else {
                None
            }
        },
        None => None,
    }
}

/// Reading an object from where its encoding stands gives it back, and
/// ends right behind the encoding.
pub proof fn lemma_object_roundtrip(bytes: Seq<u8>, at: int, object: Object)
    requires
        holds_at(bytes, at, object_bytes(object)),
    ensures
        parse_object(bytes, at) == Some((object, at + object_bytes(object).len())),
{
    match object {
        Object::Bomb { fuse_remaining, range } => {
            lemma_holds_at_split(
                bytes,
                at,
                u32_bytes(0) + ticks_bytes(fuse_remaining),
                u32_bytes(range),
            );
            lemma_holds_at_split(bytes, at, u32_bytes(0), ticks_bytes(fuse_remaining));
            lemma_u32_roundtrip(bytes, at, 0);
            lemma_ticks_roundtrip(bytes, at + 4, fuse_remaining);
            lemma_u32_roundtrip(bytes, at + 8, range);
        },
        Object::PowerUp(power_up) => {
            lemma_holds_at_split(bytes, at, u32_bytes(1), power_up_bytes(power_up));
            lemma_u32_roundtrip(bytes, at, 1);
            lemma_power_up_roundtrip(bytes, at + 4, power_up);
        },
        Object::Crate => {
            lemma_u32_roundtrip(bytes, at, 2);
        },
    }
}

/// Appends the encoding of an object.
pub fn write_object(out: &mut Vec<u8>, object: Object)
    ensures
        final(out)@ == old(out)@ + object_bytes(object),
{
    match object {
        Object::Bomb { fuse_remaining, range } => {
            write_u32(out, 0);
            write_ticks(out, fuse_remaining);
            write_u32(out, range);
        },
        Object::PowerUp(power_up) => {
            write_u32(out, 1);
            write_power_up(out, power_up);
        },
        Object::Crate => {
            write_u32(out, 2);
        },
    }
    assert(out@ =~= old(out)@ + object_bytes(object));
}

/// Reads an object at `at`, and says where the next value starts.
pub fn read_object(bytes: &[u8], at: usize) -> (read: Option<(Object, usize)>)
    ensures
        agrees(read, parse_object(bytes@, at as int)),
{
    match read_u32(bytes, at) {
        Some((index, body)) => {
            if index == 0 {
                match read_ticks(bytes, body) {
                    Some((fuse_remaining, middle)) => match read_u32(bytes, middle) {
                        Some((range, next)) => Some((Object::Bomb { fuse_remaining, range }, next)),
                        None => None,
                    },
                    None => None,
                }
            } else if index == 1 {
                match read_power_up(bytes, body) {
                    Some((power_up, next)) => Some((Object::PowerUp(power_up), next)),
                    None => None,
                }
            } else if index == 2 {
                Some((Object::Crate, body))
            } else {
                None
            }
        },
        None => None,
    }
}

/// The bytes that stand for an action.
pub open spec fn action_bytes(action: Action) -> Seq<u8> {
    match action {
        Action::Move(direction) => u32_bytes(0) + direction_bytes(direction),
        Action::StayStill => u32_bytes(1),
        Action::DropBomb => u32_bytes(2),
        Action::DropBombAndMove(direction) => u32_bytes(3) + direction_bytes(direction),
    }
}

/// Reads an action at `at`: the value and the position behind it, or
/// `None` where the bytes there do not spell one.
pub open spec fn parse_action(bytes: Seq<u8>, at: int) -> Option<(Action, int)> {
    match parse_u32(bytes, at) {
        Some((index, body)) => {
            if index == 0 {
                match parse_direction(bytes, body) {
                    Some((direction, next)) => Some((Action::Move(direction), next)),
                    None => None,
                }
            } else if index == 1 {
                Some((Action::StayStill, body))
            } else if index == 2 {
                Some((Action::DropBomb, body))
            } else if index == 3 {
                match parse_direction(bytes, body) {
                    Some((direction, next)) => Some((Action::DropBombAndMove(direction), next)),
                    None => None,
                }
            } else {
                None
            }
        },
        None => None,
    }
}

/// Reading an action from where its encoding stands gives it back, and
/// ends right behind the encoding.
pub proof fn lemma_action_roundtrip(bytes: Seq<u8>, at: int, action: Action)
    requires
        holds_at(bytes, at, action_bytes(action)),
    ensures
        parse_action(bytes, at) == Some((action, at + action_bytes(action).len())),
{
    match action {
        Action::Move(direction) => {
            lemma_holds_at_split(bytes, at, u32_bytes(0), direction_bytes(direction));
            lemma_u32_roundtrip(bytes, at, 0);
            lemma_direction_roundtrip(bytes, at + 4, direction);
        },
        Action::StayStill => {
            lemma_u32_roundtrip(bytes, at, 1);
        },
        Action::DropBomb => {
            lemma_u32_roundtrip(bytes, at, 2);
        },
        Action::DropBombAndMove(direction) => {
            lemma_holds_at_split(bytes, at, u32_bytes(3), direction_bytes(direction));
            lemma_u32_roundtrip(bytes, at, 3);
            lemma_direction_roundtrip(bytes, at + 4, direction);
        },
    }
}

/// Appends the encoding of an action.
pub fn write_action(out: &mut Vec<u8>, action: Action)
    ensures
        final(out)@ == old(out)@ + action_bytes(action),
{
    match action {
        Action::Move(direction) => {
            write_u32(out, 0);
            write_direction(out, direction);
        },
        Action::StayStill => {
            write_u32(out, 1);
        },
        Action::DropBomb => {
            write_u32(out, 2);
        },
        Action::DropBombAndMove(direction) => {
            write_u32(out, 3);
            write_direction(out, direction);
        },
    }
    assert(out@ =~= old(out)@ + action_bytes(action));
}

/// Reads an action at `at`, and says where the next value starts.
pub fn read_action(bytes: &[u8], at: usize) -> (read: Option<(Action, usize)>)
    ensures
        agrees(read, parse_action(bytes@, at as int)),
{
    match read_u32(bytes, at) {
        Some((index, body)) => {
            if index == 0 {
                match read_direction(bytes, body) {
                    Some((direction, next)) => Some((Action::Move(direction), next)),
                    None => None,
                }
            } else if index == 1 {
                Some((Action::StayStill, body))
            } else if index == 2 {
                Some((Action::DropBomb, body))
            } else if index == 3 {
                match read_direction(bytes, body) {
                    Some((direction, next)) => Some((Action::DropBombAndMove(direction), next)),
                    None => None,
                }
            } else {
                None
            }
        },
        None => None,
    }
}

/// The bytes that stand for a turn outcome.
pub open spec fn last_turn_bytes(outcome: LastTurnResult) -> Seq<u8> {
    match outcome {
        LastTurnResult::Moved(direction) => u32_bytes(0) + direction_bytes(direction),
        LastTurnResult::StoodStill => u32_bytes(1),
        LastTurnResult::ActionFailed => u32_bytes(2),
    }
}

/// Reads a turn outcome at `at`: the value and the position behind it, or
/// `None` where the bytes there do not spell one.
pub open spec fn parse_last_turn(bytes: Seq<u8>, at: int) -> Option<(LastTurnResult, int)> {
    match parse_u32(bytes, at) {
        Some((index, body)) => {
            if index == 0 {
                match parse_direction(bytes, body) {
                    Some((direction, next)) => Some((LastTurnResult::Moved(direction), next)),
                    None => None,
                }
            } else if index == 1 {
                Some((LastTurnResult::StoodStill, body))
            } else if index == 2 {
                Some((LastTurnResult::ActionFailed, body))
            } else {
                None
            }
        },
        None => None,
    }
}

/// Reading a turn outcome from where its encoding stands gives it back, and
/// ends right behind the encoding.
pub proof fn lemma_last_turn_roundtrip(bytes: Seq<u8>, at: int, outcome: LastTurnResult)
    requires
        holds_at(bytes, at, last_turn_bytes(outcome)),
    ensures
        parse_last_turn(bytes, at) == Some((outcome, at + last_turn_bytes(outcome).len())),
{
    match outcome {
        LastTurnResult::Moved(direction) => {
            lemma_holds_at_split(bytes, at, u32_bytes(0), direction_bytes(direction));
            lemma_u32_roundtrip(bytes, at, 0);
            lemma_direction_roundtrip(bytes, at + 4, direction);
        },
        LastTurnResult::StoodStill => {
            lemma_u32_roundtrip(bytes, at, 1);
        },
        LastTurnResult::ActionFailed => {
            lemma_u32_roundtrip(bytes, at, 2);
        },
    }
}

/// Appends the encoding of a turn outcome.
pub fn write_last_turn(out: &mut Vec<u8>, outcome: LastTurnResult)
    ensures
        final(out)@ == old(out)@ + last_turn_bytes(outcome),
{
    match outcome {
        LastTurnResult::Moved(direction) => {
            write_u32(out, 0);
            write_direction(out, direction);
        },
        LastTurnResult::StoodStill => {
            write_u32(out, 1);
        },
        LastTurnResult::ActionFailed => {
            write_u32(out, 2);
        },
    }
    assert(out@ =~= old(out)@ + last_turn_bytes(outcome));
}

/// Reads a turn outcome at `at`, and says where the next value starts.
pub fn read_last_turn(bytes: &[u8], at: usize) -> (read: Option<(LastTurnResult, usize)>)
    ensures
        agrees(read, parse_last_turn(bytes@, at as int)),
{
    match read_u32(bytes, at) {
        Some((index, body)) => {
            if index == 0 {
                match read_direction(bytes, body) {
                    Some((direction, next)) => Some((LastTurnResult::Moved(direction), next)),
                    None => None,
                }
            } else if index == 1 {
                Some((LastTurnResult::StoodStill, body))
            } else if index == 2 {
                Some((LastTurnResult::ActionFailed, body))
            } else {
                None
            }
        },
        None => None,
    }
}

} // verus!
