//! What a hero can ask about the labyrinth, and what it may be told.

use crate::codec::MalformedPayload;
use vstd::prelude::*;

verus! {

/// The world as a hero sees it: one neighbouring tile at a time.
pub trait World {
    /// The tile that lies next to the hero in a direction. A world says
    /// here what `inspect` shows.
    open spec fn tile_in(&self, direction: Direction) -> Tile {
        arbitrary()
    }

    /// Looks at the tile that lies next to the hero in a direction.
    fn inspect(&self, direction: Direction) -> (tile: Tile)
        ensures
            tile == self.tile_in(direction),
    ;
}

/// The tiles around the hero, as a world shows them.
pub open spec fn outlook<W: World>(world: &W) -> spec_fn(Direction) -> Tile {
    |direction: Direction| world.tile_in(direction)
}

/// The eight ways a hero can step.
#[derive(Copy, Clone, Debug, PartialEq, Eq, Structural)]
pub enum Direction {
    West,
    NorthWest,
    North,
    NorthEast,
    East,
    SouthEast,
    South,
    SouthWest,
}

/// The terrain of one cell of the labyrinth.
#[derive(Copy, Clone, Debug, PartialEq, Eq, Structural)]
pub enum Tile {
    Wall,
    Lava,
    Switch,
    EmptyFloor,
}

impl Direction {
    /// The position of a direction among the directions.
    pub open spec fn index(self) -> nat {
        match self {
            Direction::West => 0,
            Direction::NorthWest => 1,
            Direction::North => 2,
            Direction::NorthEast => 3,
            Direction::East => 4,
            Direction::SouthEast => 5,
            Direction::South => 6,
            Direction::SouthWest => 7,
        }
    }

    /// The direction at a position among the directions.
    pub open spec fn at(index: u32) -> Option<Direction> {
        if index == 0 {
            Some(Direction::West)
        } else if index == 1 {
            Some(Direction::NorthWest)
        } else if index == 2 {
            Some(Direction::North)
        } else if index == 3 {
            Some(Direction::NorthEast)
        } else if index == 4 {
            Some(Direction::East)
        } else if index == 5 {
            Some(Direction::SouthEast)
        } else if index == 6 {
            Some(Direction::South)
        } else if index == 7 {
            Some(Direction::SouthWest)
        } else {
            None
        }
    }

    /// Every direction, in declaration order.
    pub fn all() -> (directions: [Direction; 8])
        ensures
            forall|i: int| 0 <= i < 8 ==> Direction::at(i as u32) == Some(#[trigger] directions@[i]),
    {
        [
            Direction::West,
            Direction::NorthWest,
            Direction::North,
            Direction::NorthEast,
            Direction::East,
            Direction::SouthEast,
            Direction::South,
            Direction::SouthWest,
        ]
    }

    /// The number that stands for this direction across the sandbox boundary.
    pub fn into_raw(self) -> (raw: u32)
        ensures
            raw == self.index(),
            Direction::at(raw) == Some(self),
    {
        match self {
            Direction::West => 0,
            Direction::NorthWest => 1,
            Direction::North => 2,
            Direction::NorthEast => 3,
            Direction::East => 4,
            Direction::SouthEast => 5,
            Direction::South => 6,
            Direction::SouthWest => 7,
        }
    }

    /// The direction behind a number handed across the sandbox boundary. A
    /// number beyond the last direction is a malformed payload.
    pub fn from(raw: u32) -> (direction: Result<Direction, MalformedPayload>)
        ensures
            match Direction::at(raw) {
                Some(found) => direction == Ok::<Direction, MalformedPayload>(found),
                None => direction == Err::<Direction, MalformedPayload>(MalformedPayload),
            },
    {
        if raw == 0 {
            Ok(Direction::West)
        } else if raw == 1 {
            Ok(Direction::NorthWest)
        } else if raw == 2 {
            Ok(Direction::North)
        } else if raw == 3 {
            Ok(Direction::NorthEast)
        } else if raw == 4 {
            Ok(Direction::East)
        } else if raw == 5 {
            Ok(Direction::SouthEast)
        } else if raw == 6 {
            Ok(Direction::South)
        } else if raw == 7 {
            Ok(Direction::SouthWest)
        } else {
            Err(MalformedPayload)
        }
    }
}

impl Tile {
    /// The position of a terrain kind among the terrain kinds.
    pub open spec fn index(self) -> nat {
        match self {
            Tile::Wall => 0,
            Tile::Lava => 1,
            Tile::Switch => 2,
            Tile::EmptyFloor => 3,
        }
    }

    /// The terrain kind at a position among the terrain kinds.
    pub open spec fn at(index: u32) -> Option<Tile> {
        if index == 0 {
            Some(Tile::Wall)
        } else if index == 1 {
            Some(Tile::Lava)
        } else if index == 2 {
            Some(Tile::Switch)
        } else if index == 3 {
            Some(Tile::EmptyFloor)
        } else {
            None
        }
    }

    /// The terrain that a character of a labyrinth's text stands for.
    pub open spec fn of_char(character: char) -> Option<Tile> {
        if character == '.' {
            Some(Tile::EmptyFloor)
        } else if character == '#' {
            Some(Tile::Wall)
        } else if character == 'X' {
            Some(Tile::Lava)
        } else if character == 's' {
            Some(Tile::Switch)
        } else {
            None
        }
    }

    /// The number that stands for this terrain across the sandbox boundary.
    pub fn into_raw(self) -> (raw: u32)
        ensures
            raw == self.index(),
            Tile::at(raw) == Some(self),
    {
        match self {
            Tile::Wall => 0,
            Tile::Lava => 1,
            Tile::Switch => 2,
            Tile::EmptyFloor => 3,
        }
    }

    /// The terrain behind a number handed across the sandbox boundary. A
    /// number beyond the last terrain kind is a malformed payload.
    pub fn from(raw: u32) -> (tile: Result<Tile, MalformedPayload>)
        ensures
            match Tile::at(raw) {
                Some(found) => tile == Ok::<Tile, MalformedPayload>(found),
                None => tile == Err::<Tile, MalformedPayload>(MalformedPayload),
            },
    {
        if raw == 0 {
            Ok(Tile::Wall)
        } else if raw == 1 {
            Ok(Tile::Lava)
        } else if raw == 2 {
            Ok(Tile::Switch)
        } else if raw == 3 {
            Ok(Tile::EmptyFloor)
        } else {
            Err(MalformedPayload)
        }
    }

    /// The terrain that a character stands for, where it stands for one.
    pub fn try_from_char(character: char) -> (tile: Option<Tile>)
        ensures
            tile == Tile::of_char(character),
    {
        if character == '.' {
            Some(Tile::EmptyFloor)
        } else if character == '#' {
            Some(Tile::Wall)
        } else if character == 'X' {
            Some(Tile::Lava)
        } else if character == 's' {
            Some(Tile::Switch)
        } else {
            None
        }
    }

    /// The terrain that a character of the labyrinth alphabet stands for.
    pub fn from_char(character: char) -> (tile: Tile)
        requires
            Tile::of_char(character) is Some,
        ensures
            Some(tile) == Tile::of_char(character),
    {
        if character == '.' {
            Tile::EmptyFloor
        } else if character == '#' {
            Tile::Wall
        } else if character == 'X' {
            Tile::Lava
        } else {
            Tile::Switch
        }
    }
}

} // verus!
