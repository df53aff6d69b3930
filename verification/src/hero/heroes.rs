//! Two simple heroes.

use crate::hero::world::{outlook, Direction, Tile, World};
use crate::hero::{Action, Hero};
use vstd::prelude::*;

verus! {

/// A fool ignores the world and travels north, or somewhere close to north.
pub struct Fool {
    choice: usize,
}

/// A wanderer walks in its preferred direction while that is free, and
/// otherwise into the first free tile it finds.
pub struct Wanderer {
    preferred_direction: Direction,
}

/// The first direction at or behind a position among the directions in
/// which there is empty floor.
pub open spec fn first_free_from(tiles: spec_fn(Direction) -> Tile, from: nat) -> Option<
    Direction,
>
    decreases 8 - from,
{
    if from >= 8 {
        None
    } else {
        match Direction::at(from as u32) {
            Some(direction) if tiles(direction) == Tile::EmptyFloor => Some(direction),
            _ => first_free_from(tiles, from + 1),
        }
    }
}

/// The first direction, in declaration order, in which there is empty
/// floor.
pub open spec fn first_free(tiles: spec_fn(Direction) -> Tile) -> Option<Direction> {
    first_free_from(tiles, 0)
}

/// The first direction, in declaration order, in which the world shows
/// empty floor.
pub fn first_free_direction<W: World>(world: &W) -> (found: Option<Direction>)
    ensures
        found == first_free(outlook(world)),
{
    let directions = Direction::all();
    let mut i: usize = 0;
    while i < 8
        invariant
            i <= 8,
            forall|k: int| 0 <= k < 8 ==> Direction::at(k as u32) == Some(#[trigger] directions@[k]),
            first_free(outlook(world)) == first_free_from(outlook(world), i as nat),
        decreases 8 - i,
    {
        if world.inspect(directions[i]) == Tile::EmptyFloor {
            return Some(directions[i]);
        }
        i = i + 1;
    }
    None
}

impl Fool {
    /// The three moves a fool cycles through.
    pub open spec fn move_at(choice: int) -> Direction {
        if choice == 0 {
            Direction::North
        } else if choice == 1 {
            Direction::NorthWest
        } else {
            Direction::NorthEast
        }
    }

    /// Which of its three moves comes next.
    pub closed spec fn choice(&self) -> int {
        self.choice as int
    }

    /// Whether the fool's next move is one of the three.
    pub closed spec fn wf(&self) -> bool {
        self.choice < 3
    }

    fn possible_move(choice: usize) -> (direction: Direction)
        requires
            choice < 3,
        ensures
            direction == Fool::move_at(choice as int),
    {
        if choice == 0 {
            Direction::North
        } else if choice == 1 {
            Direction::NorthWest
        } else {
            Direction::NorthEast
        }
    }

    /// The move that is the fool's when `choice` is the one whose turn it
    /// is: that one, or the one behind it where the first leads into lava.
    pub open spec fn chosen(choice: int, tiles: spec_fn(Direction) -> Tile) -> Direction {
        if tiles(Fool::move_at(choice)) == Tile::Lava {
            Fool::move_at((choice + 1) % 3)
        } else {
            Fool::move_at(choice)
        }
    }

    /// The move whose turn it is, for a fool in any state: one that has
    /// lost count starts again with the first.
    pub open spec fn turn(&self) -> int {
        if self.wf() {
            self.choice()
        } else {
            0
        }
    }

    /// A fool's turn: the move whose turn it is, or the one after it where
    /// the first leads into lava. Either way the fool moves.
    pub fn decide<W: World>(&mut self, world: &W) -> (action: Action)
        requires
            old(self).wf(),
        ensures
            final(self).wf(),
            final(self).choice() == (old(self).choice() + 1) % 3,
            action == Action::Move(Fool::chosen(old(self).choice(), outlook(world))),
    {
        let chosen_move = Fool::possible_move(self.choice);
        self.choice = (self.choice + 1) % 3;
        let chosen_move = if world.inspect(chosen_move) == Tile::Lava {
            Fool::possible_move(self.choice)
        } else {
            chosen_move
        };
        Action::Move(chosen_move)
    }
}

impl Hero for Fool {
    open spec fn decision(&self, tiles: spec_fn(Direction) -> Tile) -> Action {
        Action::Move(Fool::chosen(self.turn(), tiles))
    }

    fn spawn() -> (fool: Fool)
        ensures
            fool.wf(),
            fool.choice() == 0,
    {
        Fool { choice: 0 }
    }

    fn act<W: World>(&mut self, world: &W) -> (action: Action)
        ensures
            final(self).wf(),
            final(self).choice() == (old(self).turn() + 1) % 3,
    {
        if self.choice >= 3 {
            self.choice = 0;
        }
        self.decide(world)
    }
}

impl Wanderer {
    /// The way the wanderer would rather go.
    pub closed spec fn heading(&self) -> Direction {
        self.preferred_direction
    }

    /// What a wanderer that would rather go `heading` does: it goes that
    /// way where there is empty floor, else the first way in which there
    /// is, and stays where there is none.
    pub open spec fn wandering(heading: Direction, tiles: spec_fn(Direction) -> Tile) -> Action {
        if tiles(heading) == Tile::EmptyFloor {
            Action::Move(heading)
        } else {
            match first_free(tiles) {
                Some(direction) => Action::Move(direction),
                None => Action::StayStill,
            }
        }
    }
}

impl Hero for Wanderer {
    open spec fn decision(&self, tiles: spec_fn(Direction) -> Tile) -> Action {
        Wanderer::wandering(self.heading(), tiles)
    }

    fn spawn() -> (wanderer: Wanderer)
        ensures
            wanderer.heading() == Direction::North,
    {
        Wanderer { preferred_direction: Direction::North }
    }

    fn act<W: World>(&mut self, world: &W) -> (action: Action)
        ensures
            final(self).heading() == old(self).heading(),
    {
        if world.inspect(self.preferred_direction) == Tile::EmptyFloor {
            Action::Move(self.preferred_direction)
        } else {
            match first_free_direction(world) {
                Some(direction) => Action::Move(direction),
                None => Action::StayStill,
            }
        }
    }
}

} // verus!
