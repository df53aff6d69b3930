//! What one turn is made of: what an agent gets to see, and what becomes of
//! the action it chose.

use crate::game_map::TileLocation;
use crate::world::{
    sighting_view, sightings_view, Action, Direction, Enemy, EnemyView, LastTurnResult, Object,
    Sighting, SightingView, Tile, TileOffset,
};
use vstd::prelude::*;

verus! {

/// How far agents can see their surroundings, in taxicab distance.
pub const PLAYER_VIEW_TAXICAB_DISTANCE: u32 = 5;

/// Why an agent could not move where it wanted to. This is no fault of the
/// module: the action is dropped and the game goes on.
#[derive(Copy, Clone, Debug, PartialEq, Eq, Structural)]
pub enum MoveRejection {
    /// The target lies off the southern or western edge.
    InvalidTarget,
    /// The arena has no tile at the target.
    NoTile,
    /// The target is a wall, or something solid or somebody stands on it.
    Blocked,
}

/// What became of an action.
#[derive(Copy, Clone, Debug, PartialEq, Eq, Structural)]
pub struct ActionOutcome {
    /// Where the agent stands after the action.
    pub location: TileLocation,
    /// Where a bomb is to be placed in the agent's name, if anywhere.
    pub bomb: Option<TileLocation>,
    /// What the agent is told on its next turn.
    pub result: LastTurnResult,
    /// Why the agent could not move, where it wanted to and could not.
    pub rejection: Option<MoveRejection>,
}

/// The first object that a list puts at a location.
pub open spec fn object_at(objects: Seq<(TileLocation, Object)>, location: TileLocation) -> Option<
    Object,
>
    decreases objects.len(),
{
    if objects.len() == 0 {
        None
    } else if objects[0].0 == location {
        Some(objects[0].1)
    } else {
        object_at(objects.drop_first(), location)
    }
}

/// The first rival that a list puts at a location.
pub open spec fn rival_at(rivals: Seq<(TileLocation, Enemy)>, location: TileLocation) -> Option<
    EnemyView,
>
    decreases rivals.len(),
{
    if rivals.len() == 0 {
        None
    } else if rivals[0].0 == location {
        Some(rivals[0].1@)
    } else {
        rival_at(rivals.drop_first(), location)
    }
}

/// The first tile that a list puts at a location.
pub open spec fn tile_at(tiles: Seq<(TileLocation, Tile)>, location: TileLocation) -> Option<Tile>
    decreases tiles.len(),
{
    if tiles.len() == 0 {
        None
    } else if tiles[0].0 == location {
        Some(tiles[0].1)
    } else {
        tile_at(tiles.drop_first(), location)
    }
}

/// Whether a list puts something solid at a location.
pub open spec fn solid_at(objects: Seq<(TileLocation, Object)>, location: TileLocation) -> bool {
    exists|i: int|
        0 <= i < objects.len() && (#[trigger] objects[i]).0 == location && objects[i].1.solid()
}

/// The rival that an agent at `center` is shown at a location: the first
/// that the list puts there, and nobody at the agent's own place, whoever
/// shares it.
pub open spec fn rival_seen(
    center: TileLocation,
    rivals: Seq<(TileLocation, Enemy)>,
    location: TileLocation,
) -> Option<EnemyView> {
    if location == center {
        None
    } else {
        rival_at(rivals, location)
    }
}

/// What an agent at `center` is shown of one tile.
pub open spec fn sighting_of(
    center: TileLocation,
    tile: (TileLocation, Tile),
    objects: Seq<(TileLocation, Object)>,
    rivals: Seq<(TileLocation, Enemy)>,
) -> SightingView {
    (
        tile.1,
        object_at(objects, tile.0),
        rival_seen(center, rivals, tile.0),
        TileOffset((tile.0.0 - center.0) as i32, (tile.0.1 - center.1) as i32),
    )
}

/// What an agent at `center` is shown: every tile within `radius` in
/// taxicab distance, in the order of the list of tiles, each with the first
/// object and the first rival on it and its offset from the agent. At its
/// own place the agent is shown no rival.
pub open spec fn view_of(
    center: TileLocation,
    tiles: Seq<(TileLocation, Tile)>,
    objects: Seq<(TileLocation, Object)>,
    rivals: Seq<(TileLocation, Enemy)>,
    radius: u32,
) -> Seq<SightingView>
    decreases tiles.len(),
{
    if tiles.len() == 0 {
        Seq::empty()
    } else {
        let front = view_of(center, tiles.drop_last(), objects, rivals, radius);
        if center.distance(tiles.last().0) <= radius {
            front.push(sighting_of(center, tiles.last(), objects, rivals))
        } else {
            front
        }
    }
}

/// Every sighting of a view shows a tile of the list that lies within the
/// radius, and every such tile is shown.
pub proof fn law_view_is_exact(
    center: TileLocation,
    tiles: Seq<(TileLocation, Tile)>,
    objects: Seq<(TileLocation, Object)>,
    rivals: Seq<(TileLocation, Enemy)>,
    radius: u32,
)
    ensures
        forall|i: int|
            0 <= i < view_of(center, tiles, objects, rivals, radius).len() ==> exists|k: int|
                0 <= k < tiles.len() && center.distance(tiles[k].0) <= radius && (#[trigger] view_of(
                    center,
                    tiles,
                    objects,
                    rivals,
                    radius,
                )[i]) == sighting_of(center, tiles[k], objects, rivals),
        forall|k: int|
            0 <= k < tiles.len() && center.distance((#[trigger] tiles[k]).0) <= radius ==> view_of(
                center,
                tiles,
                objects,
                rivals,
                radius,
            ).contains(sighting_of(center, tiles[k], objects, rivals)),
    decreases tiles.len(),
{
    if tiles.len() > 0 {
        let shorter = tiles.drop_last();
        let front = view_of(center, shorter, objects, rivals, radius);
        let whole = view_of(center, tiles, objects, rivals, radius);
        law_view_is_exact(center, shorter, objects, rivals, radius);
        assert forall|i: int| 0 <= i < whole.len() implies exists|k: int|
            0 <= k < tiles.len() && center.distance(tiles[k].0) <= radius && (#[trigger] whole[i])
                == sighting_of(center, tiles[k], objects, rivals) by {
            if i < front.len() {
                assert(whole[i] == front[i]);
                let k = choose|k: int|
                    0 <= k < shorter.len() && center.distance(shorter[k].0) <= radius && front[i]
                        == sighting_of(center, shorter[k], objects, rivals);
                assert(tiles[k] == shorter[k]);
            } else {
                assert(whole[i] == sighting_of(center, tiles[tiles.len() - 1], objects, rivals));
            }
        }
        assert forall|k: int|
            0 <= k < tiles.len() && center.distance(
                (#[trigger] tiles[k]).0,
            ) <= radius implies whole.contains(sighting_of(center, tiles[k], objects, rivals)) by {
            if k < shorter.len() {
                assert(shorter[k] == tiles[k]);
                let i = choose|i: int|
                    0 <= i < front.len() && front[i] == sighting_of(
                        center,
                        shorter[k],
                        objects,
                        rivals,
                    );
                assert(whole[i] == front[i]);
            } else {
                assert(whole[whole.len() - 1] == sighting_of(center, tiles[k], objects, rivals));
            }
        }
    }
}

/// A view shows no rival at the agent's own place, whoever else stands
/// there.
pub proof fn law_own_place_shows_no_rival(
    center: TileLocation,
    tiles: Seq<(TileLocation, Tile)>,
    objects: Seq<(TileLocation, Object)>,
    rivals: Seq<(TileLocation, Enemy)>,
    radius: u32,
)
    requires
        radius <= i32::MAX,
    ensures
        forall|i: int|
            0 <= i < view_of(center, tiles, objects, rivals, radius).len() && (#[trigger] view_of(
                center,
                tiles,
                objects,
                rivals,
                radius,
            )[i]).3 == TileOffset(0, 0) ==> view_of(center, tiles, objects, rivals, radius)[i].2
                is None,
    decreases tiles.len(),
{
    if tiles.len() > 0 {
        let front = view_of(center, tiles.drop_last(), objects, rivals, radius);
        let whole = view_of(center, tiles, objects, rivals, radius);
        law_own_place_shows_no_rival(center, tiles.drop_last(), objects, rivals, radius);
        assert forall|i: int| 0 <= i < whole.len() && (#[trigger] whole[i]).3 == TileOffset(
            0,
            0,
        ) implies whole[i].2 is None by {
            if i < front.len() {
                assert(whole[i] == front[i]);
            } else {
                let tile = tiles.last();
                assert(whole[i] == sighting_of(center, tile, objects, rivals));
                assert(center.distance(tile.0) <= radius);
                assert(tile.0 == center);
            }
        }
    }
}

/// The first object standing at a location.
pub fn find_object(objects: &Vec<(TileLocation, Object)>, location: TileLocation) -> (found:
    Option<Object>)
    ensures
        found == object_at(objects@, location),
{
    let mut i: usize = 0;
    assert(objects@.skip(0) =~= objects@);
    while i < objects.len()
        invariant
            i <= objects@.len(),
            object_at(objects@, location) == object_at(objects@.skip(i as int), location),
        decreases objects@.len() - i,
    {
        if objects[i].0 == location {
            assert(objects@.skip(i as int)[0] == objects@[i as int]);
            return Some(objects[i].1);
        }
        proof {
            assert(objects@.skip(i as int)[0] == objects@[i as int]);
            assert(objects@.skip(i as int).drop_first() =~= objects@.skip(i + 1));
        }
        i = i + 1;
    }
    assert(objects@.skip(i as int).len() == 0);
    None
}

/// The first tile standing at a location.
pub fn find_tile(tiles: &Vec<(TileLocation, Tile)>, location: TileLocation) -> (found: Option<
    Tile,
>)
    ensures
        found == tile_at(tiles@, location),
{
    let mut i: usize = 0;
    assert(tiles@.skip(0) =~= tiles@);
    while i < tiles.len()
        invariant
            i <= tiles@.len(),
            tile_at(tiles@, location) == tile_at(tiles@.skip(i as int), location),
        decreases tiles@.len() - i,
    {
        if tiles[i].0 == location {
            assert(tiles@.skip(i as int)[0] == tiles@[i as int]);
            return Some(tiles[i].1);
        }
        proof {
            assert(tiles@.skip(i as int)[0] == tiles@[i as int]);
            assert(tiles@.skip(i as int).drop_first() =~= tiles@.skip(i + 1));
        }
        i = i + 1;
    }
    assert(tiles@.skip(i as int).len() == 0);
    None
}

/// The first rival standing at a location.
pub fn find_rival(rivals: &Vec<(TileLocation, Enemy)>, location: TileLocation) -> (found: Option<
    Enemy,
>)
    ensures
        match found {
            Some(enemy) => rival_at(rivals@, location) == Some(enemy@),
            None => rival_at(rivals@, location) is None,
        },
{
    let mut i: usize = 0;
    assert(rivals@.skip(0) =~= rivals@);
    while i < rivals.len()
        invariant
            i <= rivals@.len(),
            rival_at(rivals@, location) == rival_at(rivals@.skip(i as int), location),
        decreases rivals@.len() - i,
    {
        if rivals[i].0 == location {
            assert(rivals@.skip(i as int)[0] == rivals@[i as int]);
            return Some(rivals[i].1.clone());
        }
        proof {
            assert(rivals@.skip(i as int)[0] == rivals@[i as int]);
            assert(rivals@.skip(i as int).drop_first() =~= rivals@.skip(i + 1));
        }
        i = i + 1;
    }
    assert(rivals@.skip(i as int).len() == 0);
    None
}

/// Whether something solid stands at a location.
pub fn is_solid_at(objects: &Vec<(TileLocation, Object)>, location: TileLocation) -> (solid: bool)
    ensures
        solid == solid_at(objects@, location),
{
    let mut i: usize = 0;
    while i < objects.len()
        invariant
            i <= objects@.len(),
            forall|j: int|
                0 <= j < i ==> !((#[trigger] objects@[j]).0 == location && objects@[j].1.solid()),
        decreases objects@.len() - i,
    {
        if objects[i].0 == location && objects[i].1.is_solid() {
            return true;
        }
        i = i + 1;
    }
    false
}

/// Whether a list of locations names a location.
pub fn is_occupied(occupied: &Vec<TileLocation>, location: TileLocation) -> (found: bool)
    ensures
        found == occupied@.contains(location),
{
    let mut i: usize = 0;
    while i < occupied.len()
        invariant
            i <= occupied@.len(),
            forall|j: int| 0 <= j < i ==> occupied@[j] != location,
        decreases occupied@.len() - i,
    {
        if occupied[i] == location {
            return true;
        }
        i = i + 1;
    }
    false
}

/// Builds what an agent standing at `center` gets to see: the tiles within
/// `radius`, with what lies and who stands on them. The rivals handed in are
/// the other agents: an agent is never shown itself, nor anybody at its own
/// place.
pub fn surroundings(
    center: TileLocation,
    tiles: &Vec<(TileLocation, Tile)>,
    objects: &Vec<(TileLocation, Object)>,
    rivals: &Vec<(TileLocation, Enemy)>,
    radius: u32,
) -> (view: Vec<Sighting>)
    requires
        radius <= i32::MAX,
    ensures
        sightings_view(view@) == view_of(center, tiles@, objects@, rivals@, radius),
{
    let mut view: Vec<Sighting> = Vec::new();
    let mut i: usize = 0;
    assert(sightings_view(view@) =~= Seq::empty());
    while i < tiles.len()
        invariant
            i <= tiles@.len(),
            radius <= i32::MAX,
            sightings_view(view@) == view_of(
                center,
                tiles@.take(i as int),
                objects@,
                rivals@,
                radius,
            ),
        decreases tiles@.len() - i,
    {
        proof {
            assert(tiles@.take(i + 1).drop_last() =~= tiles@.take(i as int));
        }
        let location = tiles[i].0;
        if location.taxicab_distance_to(center) <= radius {
            let offset = location.sub(center);
            let rival = if location.0 == center.0 && location.1 == center.1 {
                None
            } else {
                find_rival(rivals, location)
            };
            let sighting: Sighting = (tiles[i].1, find_object(objects, location), rival, offset);
            let ghost before = sightings_view(view@);
            view.push(sighting);
            assert(sightings_view(view@) =~= before.push(sighting_view(sighting)));
        }
        i = i + 1;
    }
    assert(tiles@.take(i as int) =~= tiles@);
    view
}

/// What must come of an attempt to step from `location` in a direction.
pub open spec fn move_of(
    location: TileLocation,
    direction: Direction,
    tiles: Seq<(TileLocation, Tile)>,
    objects: Seq<(TileLocation, Object)>,
    occupied: Seq<TileLocation>,
) -> Result<TileLocation, MoveRejection> {
    match location.stepped(direction) {
        None => Err(MoveRejection::InvalidTarget),
        Some(target) => match tile_at(tiles, target) {
            None => Err(MoveRejection::NoTile),
            Some(tile) => if tile != Tile::Wall && !solid_at(objects, target) && !occupied.contains(
                target,
            ) {
                Ok(target)
            } else {
                Err(MoveRejection::Blocked)
            },
        },
    }
}

/// Tries to step from `location` in a direction: the step succeeds onto a
/// floor or hill tile on which nothing solid and nobody stands.
pub fn attempt_move(
    location: TileLocation,
    direction: Direction,
    tiles: &Vec<(TileLocation, Tile)>,
    objects: &Vec<(TileLocation, Object)>,
    occupied: &Vec<TileLocation>,
) -> (moved: Result<TileLocation, MoveRejection>)
    ensures
        moved == move_of(location, direction, tiles@, objects@, occupied@),
{
    let target = match location.add(direction) {
        Some(target) => target,
        None => {
            return Err(MoveRejection::InvalidTarget);
        },
    };
    let tile = match find_tile(tiles, target) {
        Some(tile) => tile,
        None => {
            return Err(MoveRejection::NoTile);
        },
    };
    let free = !is_solid_at(objects, target) && !is_occupied(occupied, target);
    match tile {
        Tile::Floor | Tile::Hill => {
            if free {
                Ok(target)
            } else {
                Err(MoveRejection::Blocked)
            }
        },
        Tile::Wall => Err(MoveRejection::Blocked),
    }
}

/// What must come of an action chosen by an agent standing at `location`.
pub open spec fn outcome_of(
    action: Action,
    location: TileLocation,
    tiles: Seq<(TileLocation, Tile)>,
    objects: Seq<(TileLocation, Object)>,
    occupied: Seq<TileLocation>,
) -> ActionOutcome {
    match action {
        Action::StayStill => ActionOutcome {
            location,
            bomb: None,
            result: LastTurnResult::StoodStill,
            rejection: None,
        },
        Action::DropBomb => ActionOutcome {
            location,
            bomb: Some(location),
            result: LastTurnResult::StoodStill,
            rejection: None,
        },
        Action::Move(direction) => match move_of(location, direction, tiles, objects, occupied) {
            Ok(target) => ActionOutcome {
                location: target,
                bomb: None,
                result: LastTurnResult::Moved(direction),
                rejection: None,
            },
            Err(rejection) => ActionOutcome {
                location,
                bomb: None,
                result: LastTurnResult::ActionFailed,
                rejection: Some(rejection),
            },
        },
        Action::DropBombAndMove(direction) => match move_of(
            location,
            direction,
            tiles,
            objects,
            occupied,
        ) {
            Ok(target) => ActionOutcome {
                location: target,
                bomb: Some(location),
                result: LastTurnResult::Moved(direction),
                rejection: None,
            },
            Err(rejection) => ActionOutcome {
                location,
                bomb: None,
                result: LastTurnResult::ActionFailed,
                rejection: Some(rejection),
            },
        },
    }
}

/// Applies the action chosen by an agent. A move that cannot be made is not
/// an error: the agent stays where it is, and a bomb that was to be dropped
/// on the way is not dropped.
pub fn apply_action(
    action: Action,
    location: TileLocation,
    tiles: &Vec<(TileLocation, Tile)>,
    objects: &Vec<(TileLocation, Object)>,
    occupied: &Vec<TileLocation>,
) -> (outcome: ActionOutcome)
    ensures
        outcome == outcome_of(action, location, tiles@, objects@, occupied@),
{
    match action {
        Action::StayStill => ActionOutcome {
            location,
            bomb: None,
            result: LastTurnResult::StoodStill,
            rejection: None,
        },
        Action::DropBomb => ActionOutcome {
            location,
            bomb: Some(location),
            result: LastTurnResult::StoodStill,
            rejection: None,
        },
        Action::Move(direction) => match attempt_move(
            location,
            direction,
            tiles,
            objects,
            occupied,
        ) {
            Ok(target) => ActionOutcome {
                location: target,
                bomb: None,
                result: LastTurnResult::Moved(direction),
                rejection: None,
            },
            Err(rejection) => ActionOutcome {
                location,
                bomb: None,
                result: LastTurnResult::ActionFailed,
                rejection: Some(rejection),
            },
        },
        Action::DropBombAndMove(direction) => match attempt_move(
            location,
            direction,
            tiles,
            objects,
            occupied,
        ) {
            Ok(target) => ActionOutcome {
                location: target,
                bomb: Some(location),
                result: LastTurnResult::Moved(direction),
                rejection: None,
            },
            Err(rejection) => ActionOutcome {
                location,
                bomb: None,
                result: LastTurnResult::ActionFailed,
                rejection: Some(rejection),
            },
        },
    }
}

} // verus!
