//! The vocabulary shared by the arena and the agents living in it: terrain,
//! objects, rivals, relative positions and the actions an agent may take.

use vstd::prelude::*;

verus! {

/// The four ways an agent can step.
#[derive(Copy, Clone, Debug, PartialEq, Eq, Structural, PartialOrd, Ord, Hash)]
pub enum Direction {
    West,
    North,
    East,
    South,
}

/// The terrain of one cell of the arena.
#[derive(Copy, Clone, Debug, PartialEq, Eq, Structural, PartialOrd, Ord, Hash)]
pub enum Tile {
    /// Impassable terrain that cannot be blown up with bombs.
    Wall,
    /// Walkable terrain.
    Floor,
    /// Stand on this terrain to gain victory points!
    Hill,
}

/// Ticks measure game time. Agents make one decision per tick.
#[derive(Debug, Copy, Clone, PartialEq, Eq, Structural, PartialOrd, Ord, Hash)]
pub struct Ticks(pub u32);

/// An item that improves one of an agent's abilities.
#[derive(Copy, Clone, Debug, PartialEq, Eq, Structural, PartialOrd, Ord, Hash)]
pub enum PowerUp {
    /// Each increases the range of bomb explosions by one.
    BombRange,
    /// Each increases the number of ticking bombs that can be placed at once.
    SimultaneousBombs,
    /// Each increases the distance that the agent can see every turn.
    VisionRange,
}

/// Anything that can be found on top of a tile, other than an agent.
#[derive(Copy, Clone, Debug, PartialEq, Eq, Structural, PartialOrd, Ord, Hash)]
pub enum Object {
    /// A ticking bomb placed by an agent.
    Bomb {
        /// How many turns are left until it explodes.
        fuse_remaining: Ticks,
        /// How many tiles it can reach when it explodes.
        range: u32,
    },
    /// An item that improves one of an agent's abilities.
    PowerUp(PowerUp),
    /// An explodable crate. Stops the progress of bomb explosions.
    Crate,
}

/// What an agent gets to know about a rival it can see.
#[derive(Debug, PartialEq, Eq, PartialOrd, Ord, Hash)]
pub struct Enemy {
    pub name: String,
    pub team_name: String,
    pub score: u32,
}

/// A rival as a mathematical value: its names as sequences of characters.
pub struct EnemyView {
    pub name: Seq<char>,
    pub team_name: Seq<char>,
    pub score: u32,
}

impl View for Enemy {
    type V = EnemyView;

    open spec fn view(&self) -> EnemyView {
        EnemyView { name: self.name@, team_name: self.team_name@, score: self.score }
    }
}

impl Clone for Enemy {
    fn clone(&self) -> (copy: Enemy)
        ensures
            copy == *self,
    {
        Enemy { name: self.name.clone(), team_name: self.team_name.clone(), score: self.score }
    }
}

/// Position relative to something (typically the observing agent): east is
/// positive in the first coordinate, north in the second.
#[derive(Copy, Clone, Debug, PartialEq, Eq, Structural, PartialOrd, Ord, Hash)]
pub struct TileOffset(pub i32, pub i32);

/// What an agent decides to do with its turn.
#[derive(Copy, Clone, Debug, PartialEq, Eq, Structural, PartialOrd, Ord, Hash)]
pub enum Action {
    Move(Direction),
    StayStill,
    /// Place a bomb at the current location.
    DropBomb,
    /// Place a bomb at the current location while moving.
    DropBombAndMove(Direction),
}

/// What became of the action an agent chose on its previous turn.
#[derive(Copy, Clone, Debug, PartialEq, Eq, Structural, PartialOrd, Ord, Hash)]
pub enum LastTurnResult {
    Moved(Direction),
    StoodStill,
    /// The action could not be carried out (a wall or somebody was in the way).
    ActionFailed,
}

/// One entry of an agent's view: terrain, what lies on it, who stands on it,
/// and where it is relative to the agent.
pub type Sighting = (Tile, Option<Object>, Option<Enemy>, TileOffset);

/// One entry of an agent's view as a mathematical value.
pub type SightingView = (Tile, Option<Object>, Option<EnemyView>, TileOffset);

/// The mathematical value of one entry of a view.
pub open spec fn sighting_view(sighting: Sighting) -> SightingView {
    (
        sighting.0,
        sighting.1,
        match sighting.2 {
            Some(enemy) => Some(enemy@),
            None => None,
        },
        sighting.3,
    )
}

/// The mathematical value of a whole view.
pub open spec fn sightings_view(sightings: Seq<Sighting>) -> Seq<SightingView> {
    Seq::new(sightings.len(), |i: int| sighting_view(sightings[i]))
}

/// The absolute value of an integer.
pub open spec fn magnitude(x: int) -> int {
    if x < 0 {
        -x
    } else {
        x
    }
}

/// The larger of two integers.
pub open spec fn larger(x: int, y: int) -> int {
    if x < y {
        y
    } else {
        x
    }
}

impl Ticks {
    /// The number of ticks as a natural number.
    pub open spec fn count(self) -> nat {
        self.0 as nat
    }
}

impl Object {
    /// Solid objects block movement: bombs and crates do, power-ups do not.
    pub open spec fn solid(self) -> bool {
        self is Bomb || self is Crate
    }

    /// Whether the object blocks movement.
    pub fn is_solid(&self) -> (solid: bool)
        ensures
            solid == self.solid(),
    {
        match self {
            Object::Bomb { .. } | Object::Crate => true,
            Object::PowerUp(_) => false,
        }
    }
}

impl PowerUp {
    /// How many power-ups of this kind one agent can hold.
    pub open spec fn max_count(self) -> nat {
        match self {
            PowerUp::BombRange => 5,
            PowerUp::SimultaneousBombs => 3,
            PowerUp::VisionRange => 5,
        }
    }

    /// How many power-ups of this kind one agent can hold.
    pub fn max_count_per_player(&self) -> (count: u32)
        ensures
            count == self.max_count(),
    {
        match self {
            PowerUp::BombRange => 5,
            PowerUp::SimultaneousBombs => 3,
            PowerUp::VisionRange => 5,
        }
    }
}

impl Direction {
    /// The offset reached by walking `amount` tiles this way.
    pub open spec fn stretched(self, amount: int) -> (int, int) {
        match self {
            Direction::West => (-amount, 0),
            Direction::North => (0, amount),
            Direction::East => (amount, 0),
            Direction::South => (0, -amount),
        }
    }

    /// The offset of the tile `amount` steps away in this direction. The
    /// one amount without a mirror image is left out for west and south.
    pub fn extend(&self, amount: i32) -> (offset: TileOffset)
        requires
            (*self is West || *self is South) ==> amount > i32::MIN,
        ensures
            (offset.0 as int, offset.1 as int) == self.stretched(amount as int),
    {
        match self {
            Direction::West => TileOffset(-amount, 0),
            Direction::North => TileOffset(0, amount),
            Direction::East => TileOffset(amount, 0),
            Direction::South => TileOffset(0, -amount),
        }
    }

    /// Every direction, in declaration order.
    pub fn all() -> (directions: [Direction; 4])
        ensures
            directions@ == seq![Direction::West, Direction::North, Direction::East, Direction::South],
    {
        let directions = [Direction::West, Direction::North, Direction::East, Direction::South];
        assert(directions@ =~= seq![
            Direction::West,
            Direction::North,
            Direction::East,
            Direction::South,
        ]);
        directions
    }

    /// The direction an offset points in, for offsets lying on one of the
    /// two axes and away from the origin.
    pub open spec fn pointing(p: TileOffset) -> Option<Direction> {
        if p.1 == 0 && p.0 > 0 {
            Some(Direction::East)
        } else if p.1 == 0 && p.0 < 0 {
            Some(Direction::West)
        } else if p.0 == 0 && p.1 > 0 {
            Some(Direction::North)
        } else if p.0 == 0 && p.1 < 0 {
            Some(Direction::South)
        } else {
            None
        }
    }

    /// Quality of life conversion: which way does this offset point?
    pub fn try_from(p: TileOffset) -> (direction: Result<Direction, ()>)
        ensures
            direction.ok() == Direction::pointing(p),
    {
        if p.1 == 0 && p.0 > 0 {
            Ok(Direction::East)
        } else if p.1 == 0 && p.0 < 0 {
            Ok(Direction::West)
        } else if p.0 == 0 && p.1 > 0 {
            Ok(Direction::North)
        } else if p.0 == 0 && p.1 < 0 {
            Ok(Direction::South)
        } else {
            Err(())
        }
    }
}

impl TileOffset {
    /// Steps needed to reach this offset when moving along the axes only.
    pub open spec fn taxicab(self) -> int {
        magnitude(self.0 as int) + magnitude(self.1 as int)
    }

    /// Steps needed to reach this offset when diagonal steps are allowed.
    pub open spec fn chebyshev(self) -> int {
        larger(magnitude(self.0 as int), magnitude(self.1 as int))
    }

    /// Whether the position represents a tile adjacent to the origin
    /// (diagonals and the origin itself included).
    pub fn is_adjacent(&self) -> (adjacent: bool)
        ensures
            adjacent == (self.chebyshev() <= 1),
    {
        -1 <= self.0 && self.0 <= 1 && -1 <= self.1 && self.1 <= 1
    }

    /// Whether the position represents a tile orthogonally adjacent to the
    /// origin (no diagonals).
    pub fn is_orthogonally_adjacent(&self) -> (adjacent: bool)
        ensures
            adjacent == (self.taxicab() == 1),
    {
        ((self.0 == 1 || self.0 == -1) && self.1 == 0) || (self.0 == 0 && (self.1 == 1 || self.1
            == -1))
    }

    /// The taxicab distance to the origin, wherever it fits the result type.
    pub fn taxicab_distance(&self) -> (distance: u32)
        requires
            self.taxicab() <= u32::MAX,
        ensures
            distance == self.taxicab(),
    {
        let horizontal: i64 = if self.0 < 0 {
            -(self.0 as i64)
        } else {
            self.0 as i64
        };
        let vertical: i64 = if self.1 < 0 {
            -(self.1 as i64)
        } else {
            self.1 as i64
        };
        (horizontal + vertical) as u32
    }

    /// The Chebyshev distance to the origin.
    pub fn chebyshev_distance(&self) -> (distance: u32)
        ensures
            distance == self.chebyshev(),
    {
        let horizontal: i64 = if self.0 < 0 {
            -(self.0 as i64)
        } else {
            self.0 as i64
        };
        let vertical: i64 = if self.1 < 0 {
            -(self.1 as i64)
        } else {
            self.1 as i64
        };
        if horizontal < vertical {
            vertical as u32
        } else {
            horizontal as u32
        }
    }

    /// Whether the coordinate-wise sum with `rhs` is again an offset.
    pub open spec fn can_add(self, rhs: TileOffset) -> bool {
        &&& i32::MIN <= self.0 + rhs.0 <= i32::MAX
        &&& i32::MIN <= self.1 + rhs.1 <= i32::MAX
    }

    /// Whether the coordinate-wise difference with `rhs` is again an offset.
    pub open spec fn can_sub(self, rhs: TileOffset) -> bool {
        &&& i32::MIN <= self.0 - rhs.0 <= i32::MAX
        &&& i32::MIN <= self.1 - rhs.1 <= i32::MAX
    }

    /// Coordinate-wise sum, wrapping around at the ends of the coordinate
    /// range.
    pub open spec fn wrapped_add(self, rhs: TileOffset) -> TileOffset {
        TileOffset(self.0.wrapping_add(rhs.0), self.1.wrapping_add(rhs.1))
    }

    /// Coordinate-wise difference, wrapping around at the ends of the
    /// coordinate range.
    pub open spec fn wrapped_sub(self, rhs: TileOffset) -> TileOffset {
        TileOffset(self.0.wrapping_sub(rhs.0), self.1.wrapping_sub(rhs.1))
    }

    /// Coordinate-wise sum, wrapping around at the ends of the coordinate
    /// range.
    pub fn wrapping_add(self, rhs: TileOffset) -> (sum: TileOffset)
        ensures
            sum == self.wrapped_add(rhs),
            self.can_add(rhs) ==> sum.0 == self.0 + rhs.0 && sum.1 == self.1 + rhs.1,
    {
        TileOffset(self.0.wrapping_add(rhs.0), self.1.wrapping_add(rhs.1))
    }

    /// Coordinate-wise difference, wrapping around at the ends of the
    /// coordinate range.
    pub fn wrapping_sub(self, rhs: TileOffset) -> (difference: TileOffset)
        ensures
            difference == self.wrapped_sub(rhs),
            self.can_sub(rhs) ==> difference.0 == self.0 - rhs.0 && difference.1 == self.1
                - rhs.1,
    {
        TileOffset(self.0.wrapping_sub(rhs.0), self.1.wrapping_sub(rhs.1))
    }

    /// Coordinate-wise sum.
    pub fn add(self, rhs: TileOffset) -> (sum: TileOffset)
        requires
            self.can_add(rhs),
        ensures
            sum.0 == self.0 + rhs.0,
            sum.1 == self.1 + rhs.1,
    {
        TileOffset(self.0 + rhs.0, self.1 + rhs.1)
    }

    /// Coordinate-wise difference.
    pub fn sub(self, rhs: TileOffset) -> (difference: TileOffset)
        requires
            self.can_sub(rhs),
        ensures
            difference.0 == self.0 - rhs.0,
            difference.1 == self.1 - rhs.1,
    {
        TileOffset(self.0 - rhs.0, self.1 - rhs.1)
    }
}

} // verus!
