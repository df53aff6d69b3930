//! The maze a hero walks in, read from text: one line per row, the last line
//! being the southernmost row.

use crate::hero::world::{Direction, Tile, World};
use crate::hero::Action;
use crate::text::{characters, lines_of, split_lines};
use vstd::prelude::*;

verus! {


/// A labyrinth without dangers.
pub const EASY: &'static str =
    "###...###\n##.....##\n#..###..#\n#..###..#\n#...#...#\n#.......#\n####.####";

/// A labyrinth with a lake of lava in its middle.
pub const DANGEROUS: &'static str =
    "####.####\n#.......#\n#.#####.#\n#.XXXXX.#\n#.......#\n#.......#\n####.####";

/// The tiles of a labyrinth, row by row from the south.
pub struct Labyrinth {
    tiles: Vec<Vec<Tile>>,
}

/// A cell of the labyrinth: column from the west, row from the south.
#[derive(Copy, Clone, Debug, PartialEq, Eq, Structural)]
pub struct Location(pub usize, pub usize);

/// The row of tiles that a line of text stands for, where every character
/// stands for a tile.
pub open spec fn row_of(line: Seq<char>) -> Option<Seq<Tile>> {
    if forall|i: int| 0 <= i < line.len() ==> Tile::of_char(#[trigger] line[i]) is Some {
        Some(Seq::new(line.len(), |i: int| Tile::of_char(line[i])->0))
    } else {
        None
    }
}

/// The rows that a text stands for, southernmost first: the text must have
/// at least one line, its lines must be of one length and not empty, and
/// every character must stand for a tile.
pub open spec fn rows_of(text: Seq<char>) -> Option<Seq<Seq<Tile>>> {
    let lines = lines_of(text);
    if lines.len() > 0 && lines[0].len() > 0 && (forall|i: int|
        0 <= i < lines.len() ==> (#[trigger] lines[i]).len() == lines[0].len() && row_of(lines[i])
            is Some) {
        Some(Seq::new(lines.len(), |i: int| row_of(lines[lines.len() - 1 - i])->0))
    } else {
        None
    }
}

impl Location {
    /// Where a hero enters the labyrinth.
    pub fn initial() -> (location: Location)
        ensures
            location == Location(4, 0),
    {
        Location(4, 0)
    }

    /// The neighbouring cell in a direction, as coordinates that may fall
    /// off the southern or western edge.
    pub open spec fn neighbour(self, direction: Direction) -> (int, int) {
        match direction {
            Direction::West => (self.0 - 1, self.1 as int),
            Direction::NorthWest => (self.0 - 1, self.1 + 1),
            Direction::North => (self.0 as int, self.1 + 1),
            Direction::NorthEast => (self.0 + 1, self.1 + 1),
            Direction::East => (self.0 + 1, self.1 as int),
            Direction::SouthEast => (self.0 + 1, self.1 - 1),
            Direction::South => (self.0 as int, self.1 - 1),
            Direction::SouthWest => (self.0 - 1, self.1 - 1),
        }
    }

    /// The neighbouring cell in a direction; `None` where that would lie
    /// west of the first column, south of the first row, or beyond what a
    /// coordinate can hold.
    pub fn add(self, rhs: Direction) -> (moved: Option<Location>)
        ensures
            match moved {
                Some(location) => (location.0 as int, location.1 as int) == self.neighbour(rhs),
                None => {
                    let target = self.neighbour(rhs);
                    target.0 < 0 || target.1 < 0 || target.0 > usize::MAX || target.1
                        > usize::MAX
                },
            },
    {
        let column: Option<usize> = match rhs {
            Direction::West | Direction::NorthWest | Direction::SouthWest => self.0.checked_sub(1),
            Direction::East | Direction::NorthEast | Direction::SouthEast => self.0.checked_add(1),
            Direction::North | Direction::South => Some(self.0),
        };
        let row: Option<usize> = match rhs {
            Direction::South | Direction::SouthWest | Direction::SouthEast => self.1.checked_sub(1),
            Direction::North | Direction::NorthWest | Direction::NorthEast => self.1.checked_add(1),
            Direction::West | Direction::East => Some(self.1),
        };
        match (column, row) {
            (Some(column), Some(row)) => Some(Location(column, row)),
            _ => None,
        }
    }
}

impl Labyrinth {
    /// The rows of tiles, southernmost first.
    pub closed spec fn rows(&self) -> Seq<Seq<Tile>> {
        Seq::new(self.tiles@.len(), |i: int| self.tiles@[i]@)
    }

    /// A labyrinth has at least one row.
    pub closed spec fn wf(&self) -> bool {
        self.tiles@.len() > 0
    }

    /// The tile at a cell, where the labyrinth has one there.
    pub open spec fn tile_at(&self, column: int, row: int) -> Option<Tile> {
        if 0 <= row < self.rows().len() && 0 <= column < self.rows()[row].len() {
            Some(self.rows()[row][column])
        } else {
            None
        }
    }

    /// Width of the southernmost row, and the number of rows.
    pub fn size(&self) -> (size: (usize, usize))
        requires
            self.wf(),
        ensures
            size.0 == self.rows()[0].len(),
            size.1 == self.rows().len(),
    {
        (self.tiles[0].len(), self.tiles.len())
    }

    /// The tile at a location; `None` outside the labyrinth.
    pub fn tile(&self, location: Location) -> (tile: Option<Tile>)
        ensures
            tile == self.tile_at(location.0 as int, location.1 as int),
    {
        if location.1 < self.tiles.len() {
            let row = &self.tiles[location.1];
            if location.0 < row.len() {
                return Some(row[location.0]);
            }
        }
        None
    }

    /// The tile that a hero standing at `location` sees in a direction: the
    /// tile there, and a wall wherever the labyrinth ends.
    pub open spec fn seen_from(&self, location: Location, direction: Direction) -> Tile {
        match self.tile_at(location.neighbour(direction).0, location.neighbour(direction).1) {
            Some(found) => found,
            None => Tile::Wall,
        }
    }

    /// What a hero standing at `location` sees in a direction: the tile
    /// there, and a wall wherever the labyrinth ends.
    pub fn inspect_from(&self, location: Location, direction: Direction) -> (tile: Tile)
        ensures
            tile == self.seen_from(location, direction),
    {
        proof {
            let target = location.neighbour(direction);
            assert(self.tiles@.len() == self.tiles.len());
            if 0 <= target.1 < self.tiles@.len() {
                let row = self.tiles@[target.1];
                assert(row@.len() == row.len());
            }
        }
        match location.add(direction) {
            Some(target) => match self.tile(target) {
                Some(tile) => tile,
                None => Tile::Wall,
            },
            None => Tile::Wall,
        }
    }

    /// Reads a labyrinth from text; `None` where the text is not a
    /// rectangle of tiles.
    pub fn parse(text: &str) -> (labyrinth: Option<Labyrinth>)
        ensures
            match labyrinth {
                Some(found) => found.wf() && rows_of(text@) == Some(found.rows()),
                None => rows_of(text@) is None,
            },
    {
        let chars = characters(text);
        let lines = split_lines(&chars);
        if lines.len() == 0 || lines[0].len() == 0 {
            return None;
        }
        let width = lines[0].len();
        let mut tiles: Vec<Vec<Tile>> = Vec::new();
        let mut remaining: usize = lines.len();
        while remaining > 0
            invariant
                remaining <= lines@.len(),
                lines@.len() > 0,
                width == lines@[0]@.len(),
                width > 0,
                tiles@.len() == lines@.len() - remaining,
                lines@.len() == lines_of(text@).len(),
                forall|i: int| 0 <= i < lines@.len() ==> (#[trigger] lines@[i])@ == lines_of(text@)[i],
                forall|i: int|
                    remaining <= i < lines@.len() ==> (#[trigger] lines@[i])@.len() == width
                        && row_of(lines@[i]@) is Some,
                forall|i: int|
                    0 <= i < tiles@.len() ==> (#[trigger] tiles@[i])@ == row_of(
                        lines@[lines@.len() - 1 - i]@,
                    )->0,
            decreases remaining,
        {
            remaining = remaining - 1;
            let line = &lines[remaining];
            if line.len() != width {
                return None;
            }
            let mut row: Vec<Tile> = Vec::new();
            let mut column: usize = 0;
            while column < line.len()
                invariant
                    column <= line@.len(),
                    row@.len() == column,
                    remaining < lines_of(text@).len(),
                    lines_of(text@).len() > 0,
                    line@ == lines_of(text@)[remaining as int],
                    forall|i: int| 0 <= i < column ==> Tile::of_char(#[trigger] line@[i]) is Some,
                    forall|i: int| 0 <= i < column ==> row@[i] == Tile::of_char(line@[i])->0,
                decreases line@.len() - column,
            {
                match Tile::try_from_char(line[column]) {
                    Some(tile) => {
                        row.push(tile);
                    },
                    None => {
                        return None;
                    },
                }
                column = column + 1;
            }
            assert(row@ =~= row_of(line@)->0);
            tiles.push(row);
        }
        let labyrinth = Labyrinth { tiles };
        proof {
            let lines_view = lines_of(text@);
            assert(lines_view.len() == lines@.len());
            assert forall|i: int| 0 <= i < lines_view.len() implies (#[trigger] lines_view[i]).len()
                == lines_view[0].len() && row_of(lines_view[i]) is Some by {
                assert(lines_view[i] == lines@[i]@);
            }
            assert(labyrinth.rows() =~= rows_of(text@)->0);
        }
        Some(labyrinth)
    }

    /// Reads a labyrinth from a text that is a rectangle of tiles.
    pub fn from(text: &str) -> (labyrinth: Labyrinth)
        requires
            rows_of(text@) is Some,
        ensures
            labyrinth.wf(),
            rows_of(text@) == Some(labyrinth.rows()),
    {
        match Labyrinth::parse(text) {
            Some(labyrinth) => labyrinth,
            None => Labyrinth { tiles: vec![Vec::new()] },
        }
    }
}

/// What becomes of a hero that acts.
#[derive(Copy, Clone, Debug, PartialEq, Eq, Structural)]
pub enum StepOutcome {
    /// The hero bumps into a wall and stays where it is.
    BumpsIntoWall,
    /// The hero walks onto empty floor.
    Walks,
    /// The hero presses a switch and stays where it is.
    PressesSwitch,
    /// The hero dissolves in lava.
    DissolvesInLava,
    /// The hero walks out of the labyrinth and is lost.
    WalksIntoVoid,
}

/// What an action does to a hero: where it is aimed, what becomes of the
/// hero, and where the hero stands afterwards if it lives.
#[derive(Copy, Clone, Debug, PartialEq, Eq, Structural)]
pub struct Step {
    /// The cell that the action is aimed at: the hero's own where it stays
    /// still or is at the southern or western edge.
    pub target: Location,
    pub outcome: StepOutcome,
    /// Where the hero stands after the action.
    pub location: Location,
}

/// The cell that an action is aimed at.
pub open spec fn aim_of(location: Location, action: Action) -> Location {
    match action {
        Action::Move(direction) => {
            let target = location.neighbour(direction);
            if 0 <= target.0 <= usize::MAX && 0 <= target.1 <= usize::MAX {
                Location(target.0 as usize, target.1 as usize)
            } else {
                location
            }
        },
        Action::StayStill => location,
    }
}

/// What must become of a hero that acts.
pub open spec fn step_of(labyrinth: Labyrinth, location: Location, action: Action) -> Step {
    let target = aim_of(location, action);
    match labyrinth.tile_at(target.0 as int, target.1 as int) {
        Some(Tile::Wall) => Step { target, outcome: StepOutcome::BumpsIntoWall, location },
        Some(Tile::EmptyFloor) => Step { target, outcome: StepOutcome::Walks, location: target },
        Some(Tile::Switch) => Step { target, outcome: StepOutcome::PressesSwitch, location },
        Some(Tile::Lava) => Step { target, outcome: StepOutcome::DissolvesInLava, location },
        None => Step { target, outcome: StepOutcome::WalksIntoVoid, location },
    }
}

/// Applies the action of a hero standing at `location`.
pub fn apply_action(labyrinth: &Labyrinth, location: Location, action: Action) -> (step: Step)
    ensures
        step == step_of(*labyrinth, location, action),
{
    let target = match action {
        Action::Move(direction) => match location.add(direction) {
            Some(target) => target,
            None => location,
        },
        Action::StayStill => location,
    };
    match labyrinth.tile(target) {
        Some(Tile::Wall) => Step { target, outcome: StepOutcome::BumpsIntoWall, location },
        Some(Tile::EmptyFloor) => Step { target, outcome: StepOutcome::Walks, location: target },
        Some(Tile::Switch) => Step { target, outcome: StepOutcome::PressesSwitch, location },
        Some(Tile::Lava) => Step { target, outcome: StepOutcome::DissolvesInLava, location },
        None => Step { target, outcome: StepOutcome::WalksIntoVoid, location },
    }
}

/// The labyrinth as seen from one of its cells.
pub struct Outlook<'a> {
    pub labyrinth: &'a Labyrinth,
    pub location: Location,
}

impl<'a> World for Outlook<'a> {
    open spec fn tile_in(&self, direction: Direction) -> Tile {
        self.labyrinth.seen_from(self.location, direction)
    }

    fn inspect(&self, direction: Direction) -> (tile: Tile) {
        self.labyrinth.inspect_from(self.location, direction)
    }
}

} // verus!
