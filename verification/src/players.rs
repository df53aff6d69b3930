//! Two simple players.

use crate::player::Player;
use crate::world::{
    sightings_view, Action, Direction, LastTurnResult, Sighting, SightingView, Tile, TileOffset,
};
use vstd::prelude::*;

verus! {

/// A fool ignores everything and just walks north!
pub struct Fool;

/// A wanderer walks on while the way ahead is free, and drops a bomb every
/// once in a while.
pub struct Wanderer {
    preferred_direction: Direction,
    bomb_ticks: u32,
}

impl Default for Fool {
    fn default() -> (fool: Fool) {
        Fool
    }
}

impl Player for Fool {
    open spec fn choice(&self, surroundings: Seq<SightingView>, last_result: LastTurnResult) -> Action {
        Action::Move(Direction::North)
    }

    open spec fn told_name(&self) -> Seq<char> {
        "Mr North"@
    }

    open spec fn told_team() -> Seq<char> {
        "Northward"@
    }

    fn act(&mut self, surroundings: Vec<Sighting>, last_result: LastTurnResult) -> (action: Action)
        ensures
            action == Action::Move(Direction::North),
    {
        Action::Move(Direction::North)
    }

    fn name(&self) -> (name: String)
        ensures
            name@ == "Mr North"@,
    {
        "Mr North".to_owned()
    }

    fn team_name() -> (name: String)
        ensures
            name@ == "Northward"@,
    {
        "Northward".to_owned()
    }
}

/// The terrain of the first tile of a view that lies at an offset and has
/// nothing lying on it.
pub open spec fn bare_tile_at(view: Seq<SightingView>, offset: TileOffset) -> Option<Tile>
    decreases view.len(),
{
    if view.len() == 0 {
        None
    } else if view[0].1 is None && view[0].3 == offset {
        Some(view[0].0)
    } else {
        bare_tile_at(view.drop_first(), offset)
    }
}

/// Whether a wanderer can step onto a tile right away: bare floor next to
/// it, straight along an axis.
pub open spec fn is_way(sighting: SightingView) -> bool {
    &&& sighting.1 is None
    &&& sighting.3.chebyshev() <= 1
    &&& sighting.0 == Tile::Floor
    &&& Direction::pointing(sighting.3) is Some
}

/// The direction of the first tile of a view that a wanderer can step onto
/// right away.
pub open spec fn first_way(view: Seq<SightingView>) -> Option<Direction>
    decreases view.len(),
{
    if view.len() == 0 {
        None
    } else if is_way(view[0]) {
        Direction::pointing(view[0].3)
    } else {
        first_way(view.drop_first())
    }
}

/// What a wanderer does when it drops no bomb: it walks north where the
/// tile ahead is bare floor, else onto the first tile it can step onto, and
/// stays still where there is none.
pub open spec fn wandering(view: Seq<SightingView>, ahead: TileOffset) -> Action {
    if bare_tile_at(view, ahead) == Some(Tile::Floor) {
        Action::Move(Direction::North)
    } else {
        match first_way(view) {
            Some(direction) => Action::Move(direction),
            None => Action::StayStill,
        }
    }
}

impl Wanderer {
    /// A wanderer heading north that has not dropped a bomb yet.
    pub fn new() -> (wanderer: Wanderer)
        ensures
            wanderer.heading() == Direction::North,
            wanderer.turns_since_bomb() == 0,
    {
        Wanderer { preferred_direction: Direction::North, bomb_ticks: 0 }
    }

    /// The way the wanderer would rather go.
    pub closed spec fn heading(&self) -> Direction {
        self.preferred_direction
    }

    /// How many turns the wanderer has taken since it last dropped a bomb.
    pub closed spec fn turns_since_bomb(&self) -> nat {
        self.bomb_ticks as nat
    }

    /// How many turns the wanderer will have taken since its last bomb once
    /// it has taken one more.
    pub open spec fn turns_after(&self) -> nat {
        if self.turns_since_bomb() >= 3 {
            0
        } else {
            self.turns_since_bomb() + 1
        }
    }

    /// What the wanderer does with its next turn, given what it sees: after
    /// three turns of wandering it drops a bomb and moves on the way it
    /// would rather go.
    pub open spec fn decision(&self, view: Seq<SightingView>) -> Action {
        if self.turns_since_bomb() >= 3 {
            Action::DropBombAndMove(self.heading())
        } else {
            let ahead = self.heading().stretched(1);
            wandering(view, TileOffset(ahead.0 as i32, ahead.1 as i32))
        }
    }

    /// The wanderer's decision: every fourth turn it drops a bomb and moves
    /// on, and in between it wanders.
    pub fn decide(&mut self, surroundings: &Vec<Sighting>) -> (action: Action)
        ensures
            final(self).heading() == old(self).heading(),
            final(self).turns_since_bomb() == old(self).turns_after(),
            action == old(self).decision(sightings_view(surroundings@)),
    {
        if self.bomb_ticks >= 3 {
            self.bomb_ticks = 0;
            return Action::DropBombAndMove(self.preferred_direction);
        }
        self.bomb_ticks = self.bomb_ticks + 1;
        let ahead = self.preferred_direction.extend(1);
        match find_bare_tile(surroundings, ahead) {
            Some(Tile::Floor) => Action::Move(Direction::North),
            _ => match find_way(surroundings) {
                Some(direction) => Action::Move(direction),
                None => Action::StayStill,
            },
        }
    }
}

/// The terrain of the first tile in sight that lies at an offset and has
/// nothing lying on it.
pub fn find_bare_tile(surroundings: &Vec<Sighting>, offset: TileOffset) -> (tile: Option<Tile>)
    ensures
        tile == bare_tile_at(sightings_view(surroundings@), offset),
{
    let ghost view = sightings_view(surroundings@);
    let mut i: usize = 0;
    assert(view.skip(0) =~= view);
    while i < surroundings.len()
        invariant
            i <= surroundings@.len(),
            view == sightings_view(surroundings@),
            bare_tile_at(view, offset) == bare_tile_at(view.skip(i as int), offset),
        decreases surroundings@.len() - i,
    {
        let sighting = &surroundings[i];
        proof {
            assert(view.skip(i as int)[0] == view[i as int]);
            assert(view.skip(i as int).drop_first() =~= view.skip(i + 1));
        }
        if sighting.1.is_none() && sighting.3 == offset {
            return Some(sighting.0);
        }
        i = i + 1;
    }
    assert(view.skip(i as int).len() == 0);
    None
}

/// The direction of the first tile in sight that a wanderer can step onto
/// right away.
pub fn find_way(surroundings: &Vec<Sighting>) -> (way: Option<Direction>)
    ensures
        way == first_way(sightings_view(surroundings@)),
{
    let ghost view = sightings_view(surroundings@);
    let mut k: usize = 0;
    assert(view.skip(0) =~= view);
    while k < surroundings.len()
        invariant
            k <= surroundings@.len(),
            view == sightings_view(surroundings@),
            first_way(view) == first_way(view.skip(k as int)),
        decreases surroundings@.len() - k,
    {
        let sighting = &surroundings[k];
        proof {
            assert(view.skip(k as int)[0] == view[k as int]);
            assert(view.skip(k as int).drop_first() =~= view.skip(k + 1));
        }
        let floor = match sighting.0 {
            Tile::Floor => true,
            _ => false,
        };
        if sighting.1.is_none() && sighting.3.is_adjacent() && floor {
            match Direction::try_from(sighting.3) {
                Ok(direction) => {
                    return Some(direction);
                },
                Err(_) => {},
            }
        }
        k = k + 1;
    }
    assert(view.skip(k as int).len() == 0);
    None
}

impl Default for Wanderer {
    fn default() -> (wanderer: Wanderer)
        ensures
            wanderer.heading() == Direction::North,
            wanderer.turns_since_bomb() == 0,
    {
        Wanderer::new()
    }
}

impl Player for Wanderer {
    open spec fn choice(&self, surroundings: Seq<SightingView>, last_result: LastTurnResult) -> Action {
        self.decision(surroundings)
    }

    open spec fn told_name(&self) -> Seq<char> {
        "Wanderman"@
    }

    open spec fn told_team() -> Seq<char> {
        "The Nomads"@
    }

    fn act(&mut self, surroundings: Vec<Sighting>, last_result: LastTurnResult) -> (action: Action)
        ensures
            final(self).heading() == old(self).heading(),
            final(self).turns_since_bomb() == old(self).turns_after(),
            action == old(self).decision(sightings_view(surroundings@)),
    {
        self.decide(&surroundings)
    }

    fn name(&self) -> (name: String)
        ensures
            name@ == "Wanderman"@,
    {
        "Wanderman".to_owned()
    }

    fn team_name() -> (name: String)
        ensures
            name@ == "The Nomads"@,
    {
        "The Nomads".to_owned()
    }
}

} // verus!
