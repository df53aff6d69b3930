//! Places in the arena.

use crate::text::{characters, lines_of, split_lines};
use crate::world::{magnitude, Direction, Object, Tile, TileOffset};
use vstd::prelude::*;

verus! {

/// A cell of the arena: column from the west, row from the south.
#[derive(Copy, Clone, Debug, PartialEq, Eq, Structural)]
pub struct TileLocation(pub usize, pub usize);

impl TileLocation {
    /// The taxicab distance between two cells.
    pub open spec fn distance(self, other: TileLocation) -> int {
        magnitude(self.0 - other.0) + magnitude(self.1 - other.1)
    }

    /// The neighbouring cell in a direction, as coordinates that may fall
    /// off the southern or western edge.
    pub open spec fn neighbour(self, direction: Direction) -> (int, int) {
        match direction {
            Direction::West => (self.0 - 1, self.1 as int),
            Direction::North => (self.0 as int, self.1 + 1),
            Direction::East => (self.0 + 1, self.1 as int),
            Direction::South => (self.0 as int, self.1 - 1),
        }
    }

    /// The neighbouring cell in a direction, where it is a cell.
    pub open spec fn stepped(self, direction: Direction) -> Option<TileLocation> {
        let target = self.neighbour(direction);
        if 0 <= target.0 <= usize::MAX && 0 <= target.1 <= usize::MAX {
            Some(TileLocation(target.0 as usize, target.1 as usize))
        } else {
            None
        }
    }

    /// Whether the offset from `origin` to this cell can be written down.
    pub open spec fn offset_fits(self, origin: TileLocation) -> bool {
        &&& i32::MIN <= self.0 - origin.0 <= i32::MAX
        &&& i32::MIN <= self.1 - origin.1 <= i32::MAX
    }

    /// The neighbouring cell in a direction; `None` where that would lie
    /// west of the first column, south of the first row, or beyond what a
    /// coordinate can hold.
    pub fn add(self, rhs: Direction) -> (moved: Option<TileLocation>)
        ensures
            moved == self.stepped(rhs),
    {
        match rhs {
            Direction::West => match self.0.checked_sub(1) {
                Some(column) => Some(TileLocation(column, self.1)),
                None => None,
            },
            Direction::North => match self.1.checked_add(1) {
                Some(row) => Some(TileLocation(self.0, row)),
                None => None,
            },
            Direction::East => match self.0.checked_add(1) {
                Some(column) => Some(TileLocation(column, self.1)),
                None => None,
            },
            Direction::South => match self.1.checked_sub(1) {
                Some(row) => Some(TileLocation(self.0, row)),
                None => None,
            },
        }
    }

    /// The difference of two coordinates, where it fits 32 bits.
    fn difference(to: usize, from: usize) -> (difference: Option<i32>)
        ensures
            match difference {
                Some(found) => found == to - from,
                None => !(i32::MIN <= to - from <= i32::MAX),
            },
    {
        if to >= from {
            let distance = to - from;
            if distance <= i32::MAX as usize {
                Some(distance as i32)
            } else {
                None
            }
        } else {
            let distance = from - to;
            if distance <= i32::MAX as usize {
                Some(-(distance as i32))
            } else if distance - 1 == i32::MAX as usize {
                Some(i32::MIN)
            } else {
                None
            }
        }
    }

    /// The offset that leads from `rhs` to this cell; `None` where it cannot
    /// be written down.
    pub fn checked_sub(self, rhs: TileLocation) -> (offset: Option<TileOffset>)
        ensures
            offset is Some <==> self.offset_fits(rhs),
            offset matches Some(found) ==> found.0 == self.0 - rhs.0 && found.1 == self.1 - rhs.1,
    {
        match (TileLocation::difference(self.0, rhs.0), TileLocation::difference(self.1, rhs.1)) {
            (Some(x), Some(y)) => Some(TileOffset(x, y)),
            _ => None,
        }
    }

    /// The offset that leads from `rhs` to this cell.
    pub fn sub(self, rhs: TileLocation) -> (offset: TileOffset)
        requires
            self.offset_fits(rhs),
        ensures
            offset.0 == self.0 - rhs.0,
            offset.1 == self.1 - rhs.1,
    {
        match self.checked_sub(rhs) {
            Some(offset) => offset,
            None => TileOffset(0, 0),
        }
    }

    /// The taxicab distance to another cell, capped at what the result type
    /// holds.
    pub fn taxicab_distance_to(&self, other: TileLocation) -> (distance: u32)
        ensures
            distance == capped(self.distance(other)),
    {
        let horizontal: u128 = if self.0 >= other.0 {
            (self.0 - other.0) as u128
        } else {
            (other.0 - self.0) as u128
        };
        let vertical: u128 = if self.1 >= other.1 {
            (self.1 - other.1) as u128
        } else {
            (other.1 - self.1) as u128
        };
        let sum = horizontal + vertical;
        if sum > u32::MAX as u128 {
            u32::MAX
        } else {
            sum as u32
        }
    }

    /// The taxicab distance to the closest of the given cells, capped at
    /// what the result type holds; the cap itself where there is no cell.
    pub fn taxicab_distance_to_closest(&self, locations: &Vec<TileLocation>) -> (distance: u32)
        ensures
            distance == closest(*self, locations@),
    {
        let mut shortest: u32 = u32::MAX;
        let mut i: usize = 0;
        while i < locations.len()
            invariant
                i <= locations@.len(),
                shortest == closest(*self, locations@.take(i as int)),
            decreases locations@.len() - i,
        {
            let distance = self.taxicab_distance_to(locations[i]);
            proof {
                assert(locations@.take(i + 1).drop_last() =~= locations@.take(i as int));
            }
            if distance < shortest {
                shortest = distance;
            }
            i = i + 1;
        }
        assert(locations@.take(i as int) =~= locations@);
        shortest
    }
}

/// A distance as far as 32 bits can tell it.
pub open spec fn capped(distance: int) -> int {
    if distance > u32::MAX {
        u32::MAX as int
    } else {
        distance
    }
}

/// The capped taxicab distance from a cell to the closest of some cells.
pub open spec fn closest(from: TileLocation, locations: Seq<TileLocation>) -> int
    decreases locations.len(),
{
    if locations.len() == 0 {
        u32::MAX as int
    } else {
        let before = closest(from, locations.drop_last());
        let here = capped(from.distance(locations.last()));
        if here < before {
            here
        } else {
            before
        }
    }
}

/// The closest cell is at most as far as any of the cells.
pub proof fn law_closest_is_least(from: TileLocation, locations: Seq<TileLocation>, index: int)
    requires
        0 <= index < locations.len(),
    ensures
        closest(from, locations) <= capped(from.distance(locations[index])),
    decreases locations.len(),
{
    if index < locations.len() - 1 {
        law_closest_is_least(from, locations.drop_last(), index);
    }
}

/// The terrain that a character of a map's text stands for.
pub fn tile_from_char(character: char) -> (tile: Tile)
    ensures
        tile == if character == '#' {
            Tile::Wall
        } else if character == '~' || character == 'C' {
            Tile::Hill
        } else {
            Tile::Floor
        },
{
    if character == '#' {
        Tile::Wall
    } else if character == '~' || character == 'C' {
        Tile::Hill
    } else {
        Tile::Floor
    }
}

/// Out of ten, how often a crate stands where this character is in a map's
/// text: always for `c` and `C`, as often as the digit says for `1` to `9`,
/// and never otherwise.
pub open spec fn crate_chance(character: char) -> nat {
    if character == 'c' || character == 'C' {
        10
    } else if '1' <= character <= '9' {
        (character as u32 - '0' as u32) as nat
    } else {
        0
    }
}

/// The object that a character of a map's text puts on its tile, given a
/// roll of a ten-sided die for the places where a crate stands by chance.
pub fn object_from_char(character: char, roll: u32) -> (object: Option<Object>)
    requires
        1 <= roll <= 10,
    ensures
        object == if crate_chance(character) >= roll {
            Some(Object::Crate)
        } else {
            None
        },
{
    if character == 'c' || character == 'C' {
        Some(Object::Crate)
    } else if '1' <= character && character <= '9' {
        let chance = character as u32 - '0' as u32;
        if chance >= roll {
            Some(Object::Crate)
        } else {
            None
        }
    } else {
        None
    }
}

/// Whether a character of a map's text marks a place where players appear.
pub fn spawner_from_char(character: char) -> (spawner: bool)
    ensures
        spawner == (character == 's'),
{
    character == 's'
}

/// The size of the arena.
#[derive(Copy, Clone, Debug, PartialEq, Eq, Structural)]
pub struct GameMap {
    width: usize,
    height: usize,
}

/// Why a text is no map.
#[derive(Copy, Clone, Debug, PartialEq, Eq, Structural)]
pub enum MapError {
    /// Two neighbouring rows differ in length.
    MismatchedRows,
    /// There is no row, or the southernmost row is empty.
    Empty,
}

/// What the text of a map says of one cell.
#[derive(Copy, Clone, Debug, PartialEq, Eq, Structural)]
pub struct MapCell {
    pub location: TileLocation,
    pub tile: Tile,
    /// Out of ten, how often a crate stands on the cell.
    pub crate_chance: u32,
    /// Whether players appear here.
    pub spawner: bool,
}

/// How many bytes a character takes in a text.
pub open spec fn char_width(character: char) -> nat {
    if (character as u32) < 0x80 {
        1
    } else if (character as u32) < 0x800 {
        2
    } else if (character as u32) < 0x10000 {
        3
    } else {
        4
    }
}

/// How many bytes a line takes in a text.
pub open spec fn byte_length(line: Seq<char>) -> nat
    decreases line.len(),
{
    if line.len() == 0 {
        0
    } else {
        byte_length(line.drop_last()) + char_width(line.last())
    }
}

/// What a character at a place of a map says of the cell.
pub open spec fn cell_of(character: char, column: int, row: int) -> MapCell {
    MapCell {
        location: TileLocation(column as usize, row as usize),
        tile: if character == '#' {
            Tile::Wall
        } else if character == '~' || character == 'C' {
            Tile::Hill
        } else {
            Tile::Floor
        },
        crate_chance: crate_chance(character) as u32,
        spawner: character == 's',
    }
}

/// The cells of one row of a map, from the west.
pub open spec fn row_cells(line: Seq<char>, row: int) -> Seq<MapCell> {
    Seq::new(line.len(), |column: int| cell_of(line[column], column, row))
}

/// The cells of the southernmost `rows` rows of a map whose text has the
/// given lines, row by row from the south.
pub open spec fn map_cells(lines: Seq<Seq<char>>, rows: nat) -> Seq<MapCell>
    decreases rows,
{
    if rows == 0 {
        Seq::empty()
    } else {
        map_cells(lines, (rows - 1) as nat) + row_cells(lines[lines.len() - rows], rows - 1)
    }
}

/// Whether two neighbouring lines differ in length.
pub open spec fn rows_mismatch(lines: Seq<Seq<char>>) -> bool {
    exists|i: int|
        0 <= i < lines.len() - 1 && byte_length(#[trigger] lines[i]) != byte_length(lines[i + 1])
}

/// What reading a map from text must give: the error that rows differ in
/// length where any two neighbours do, the error that the map is empty where
/// there is no row or the last line is empty, and else the size of the map
/// and its cells.
pub open spec fn map_of(text: Seq<char>) -> Result<((nat, nat), Seq<MapCell>), MapError> {
    let lines = lines_of(text);
    if rows_mismatch(lines) {
        Err(MapError::MismatchedRows)
    } else if lines.len() == 0 || lines.last().len() == 0 {
        Err(MapError::Empty)
    } else {
        Ok(((byte_length(lines.last()), lines.len()), map_cells(lines, lines.len())))
    }
}

/// How many bytes a line takes in a text.
fn line_bytes(line: &Vec<char>) -> (bytes: usize)
    requires
        line@.len() <= usize::MAX / 4,
    ensures
        bytes == byte_length(line@),
{
    let mut bytes: usize = 0;
    let mut i: usize = 0;
    assert(line@.take(0) =~= Seq::empty());
    while i < line.len()
        invariant
            i <= line@.len(),
            bytes == byte_length(line@.take(i as int)),
            bytes <= 4 * i,
            line@.len() <= usize::MAX / 4,
        decreases line@.len() - i,
    {
        proof {
            assert(line@.take(i + 1).drop_last() =~= line@.take(i as int));
        }
        let code = line[i] as u32;
        let width: usize = if code < 0x80 {
            1
        } else if code < 0x800 {
            2
        } else if code < 0x10000 {
            3
        } else {
            4
        };
        bytes = bytes + width;
        i = i + 1;
    }
    assert(line@.take(i as int) =~= line@);
    bytes
}

impl GameMap {
    /// How many columns the arena has.
    pub closed spec fn columns(self) -> nat {
        self.width as nat
    }

    /// How many rows the arena has.
    pub closed spec fn rows(self) -> nat {
        self.height as nat
    }

    /// How many columns the arena has.
    pub fn width(&self) -> (width: usize)
        ensures
            width == self.columns(),
    {
        self.width
    }

    /// How many rows the arena has.
    pub fn height(&self) -> (height: usize)
        ensures
            height == self.rows(),
    {
        self.height
    }

    /// Reads a map from its text: one line per row, the last line being the
    /// southernmost row, one character per cell.
    pub fn spawn_from_text(text: &str) -> (map: Result<(GameMap, Vec<MapCell>), MapError>)
        requires
            text@.len() <= usize::MAX / 4,
        ensures
            match map_of(text@) {
                Ok((size, cells)) => map matches Ok((found, found_cells)) && found.columns()
                    == size.0 && found.rows() == size.1 && found_cells@ == cells,
                Err(error) => map == Err::<(GameMap, Vec<MapCell>), MapError>(error),
            },
    {
        let chars = characters(text);
        let lines = split_lines(&chars);
        let ghost line_views = lines_of(text@);
        proof {
            lemma_lines_are_short(text@, 0);
        }
        let mut lengths: Vec<usize> = Vec::new();
        let mut i: usize = 0;
        while i < lines.len()
            invariant
                i <= lines@.len(),
                lines@.len() == line_views.len(),
                forall|k: int| 0 <= k < lines@.len() ==> (#[trigger] lines@[k])@ == line_views[k],
                forall|k: int| 0 <= k < line_views.len() ==> (#[trigger] line_views[k]).len() <= usize::MAX / 4,
                lengths@.len() == i,
                forall|k: int| 0 <= k < i ==> lengths@[k] == byte_length(line_views[k]),
            decreases lines@.len() - i,
        {
            lengths.push(line_bytes(&lines[i]));
            i = i + 1;
        }
        let mut k: usize = 1;
        while k < lengths.len()
            invariant
                1 <= k,
                line_views == lines_of(text@),
                lengths@.len() == line_views.len(),
                forall|w: int| 0 <= w < lengths@.len() ==> lengths@[w] == byte_length(line_views[w]),
                forall|w: int|
                    0 <= w < k - 1 && w < line_views.len() - 1 ==> byte_length(
                        #[trigger] line_views[w],
                    ) == byte_length(line_views[w + 1]),
            decreases lengths@.len() - k,
        {
            if lengths[k - 1] != lengths[k] {
                assert(byte_length(line_views[k - 1]) != byte_length(line_views[k - 1 + 1]));
                return Err(MapError::MismatchedRows);
            }
            k = k + 1;
        }
        if lines.len() == 0 || lines[lines.len() - 1].len() == 0 {
            return Err(MapError::Empty);
        }
        let size = GameMap { width: lengths[lengths.len() - 1], height: lines.len() };
        let mut cells: Vec<MapCell> = Vec::new();
        let mut row: usize = 0;
        while row < lines.len()
            invariant
                row <= lines@.len(),
                lines@.len() == line_views.len(),
                forall|w: int| 0 <= w < lines@.len() ==> (#[trigger] lines@[w])@ == line_views[w],
                cells@ == map_cells(line_views, row as nat),
            decreases lines@.len() - row,
        {
            let line = &lines[lines.len() - 1 - row];
            let ghost before = cells@;
            let mut column: usize = 0;
            assert(cells@ =~= before + row_cells(line@, row as int).take(0));
            while column < line.len()
                invariant
                    column <= line@.len(),
                    cells@ == before + row_cells(line@, row as int).take(column as int),
                decreases line@.len() - column,
            {
                let character = line[column];
                let chance: u32 = if character == 'c' || character == 'C' {
                    10
                } else if '1' <= character && character <= '9' {
                    character as u32 - '0' as u32
                } else {
                    0
                };
                cells.push(
                    MapCell {
                        location: TileLocation(column, row),
                        tile: tile_from_char(character),
                        crate_chance: chance,
                        spawner: spawner_from_char(character),
                    },
                );
                column = column + 1;
                assert(cells@ =~= before + row_cells(line@, row as int).take(column as int));
            }
            assert(row_cells(line@, row as int).take(column as int) =~= row_cells(
                line@,
                row as int,
            ));
            row = row + 1;
        }
        Ok((size, cells))
    }
}

/// No line of a text is longer than the text.
pub proof fn lemma_lines_are_short(text: Seq<char>, from: int)
    requires
        0 <= from,
    ensures
        forall|k: int|
            0 <= k < crate::text::lines_from(text, from).len() ==> (#[trigger] crate::text::lines_from(
                text,
                from,
            )[k]).len() <= text.len(),
    decreases text.len() + 1 - from,
{
    if from < text.len() {
        crate::text::lemma_line_end_bounds(text, from);
        let end = crate::text::line_end(text, from);
        lemma_lines_are_short(text, end + 1);
        let rest = crate::text::lines_from(text, end + 1);
        let all = crate::text::lines_from(text, from);
        assert forall|k: int| 0 <= k < all.len() implies (#[trigger] all[k]).len() <= text.len() by {
            if k > 0 {
                assert(all[k] == rest[k - 1]);
            }
        }
    }
}

} // verus!
