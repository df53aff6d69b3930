//! Where a new agent enters the arena.
//!
//! Agents appear on the places that the map marks for it. Of the places that
//! are free, the one farthest from every agent is taken, so that agents are
//! spread out; among places equally far, the one that the map names last.

use crate::game_map::{closest, TileLocation};
use crate::turn::is_occupied;
use crate::world::Object;
use vstd::prelude::*;

verus! {

/// Whether a list of objects puts an object at a location.
pub open spec fn has_object(objects: Seq<(TileLocation, Object)>, location: TileLocation) -> bool {
    exists|i: int| 0 <= i < objects.len() && (#[trigger] objects[i]).0 == location
}

/// Whether a place is free: no object lies on it and no agent stands on it.
pub open spec fn is_free(
    place: TileLocation,
    objects: Seq<(TileLocation, Object)>,
    agents: Seq<TileLocation>,
) -> bool {
    !has_object(objects, place) && !agents.contains(place)
}

/// The places that are free, in the order of the list of places.
pub open spec fn free_places(
    spawners: Seq<TileLocation>,
    objects: Seq<(TileLocation, Object)>,
    agents: Seq<TileLocation>,
) -> Seq<TileLocation>
    decreases spawners.len(),
{
    if spawners.len() == 0 {
        Seq::empty()
    } else {
        let front = free_places(spawners.drop_last(), objects, agents);
        if is_free(spawners.last(), objects, agents) {
            front.push(spawners.last())
        } else {
            front
        }
    }
}

/// Where in a list of places the best one stands: the last of those that
/// are farthest from the closest agent. Minus one for an empty list.
pub open spec fn best_place(places: Seq<TileLocation>, agents: Seq<TileLocation>) -> int
    decreases places.len(),
{
    if places.len() == 0 {
        -1
    } else {
        let before = best_place(places.drop_last(), agents);
        if before < 0 || closest(places.last(), agents) >= closest(places[before], agents) {
            places.len() - 1
        } else {
            before
        }
    }
}

/// The best place is a place of the list, no place is farther from the
/// closest agent, and no place behind it is as far.
pub proof fn lemma_best_place(places: Seq<TileLocation>, agents: Seq<TileLocation>)
    ensures
        places.len() == 0 ==> best_place(places, agents) == -1,
        places.len() > 0 ==> 0 <= best_place(places, agents) < places.len(),
        forall|i: int|
            0 <= i < places.len() ==> closest(#[trigger] places[i], agents) <= closest(
                places[best_place(places, agents)],
                agents,
            ),
        forall|i: int|
            best_place(places, agents) < i < places.len() ==> closest(
                #[trigger] places[i],
                agents,
            ) < closest(places[best_place(places, agents)], agents),
    decreases places.len(),
{
    if places.len() > 0 {
        lemma_best_place(places.drop_last(), agents);
        let shorter = places.drop_last();
        let before = best_place(shorter, agents);
        assert forall|i: int| 0 <= i < places.len() implies closest(
            #[trigger] places[i],
            agents,
        ) <= closest(places[best_place(places, agents)], agents) by {
            if i < shorter.len() {
                assert(shorter[i] == places[i]);
                assert(shorter[before] == places[before]);
            }
        }
        assert forall|i: int| best_place(places, agents) < i < places.len() implies closest(
            #[trigger] places[i],
            agents,
        ) < closest(places[best_place(places, agents)], agents) by {
            if i < shorter.len() {
                assert(shorter[i] == places[i]);
                assert(shorter[before] == places[before]);
            }
        }
    }
}

/// Whether an object lies at a location.
pub fn object_lies_at(objects: &Vec<(TileLocation, Object)>, location: TileLocation) -> (found:
    bool)
    ensures
        found == has_object(objects@, location),
{
    let mut i: usize = 0;
    while i < objects.len()
        invariant
            i <= objects@.len(),
            forall|j: int| 0 <= j < i ==> (#[trigger] objects@[j]).0 != location,
        decreases objects@.len() - i,
    {
        if objects[i].0 == location {
            return true;
        }
        i = i + 1;
    }
    false
}

/// The places for new agents that are free right now.
pub fn available_spawn_locations(
    spawners: &Vec<TileLocation>,
    objects: &Vec<(TileLocation, Object)>,
    agents: &Vec<TileLocation>,
) -> (available: Vec<TileLocation>)
    ensures
        available@ == free_places(spawners@, objects@, agents@),
{
    let mut available: Vec<TileLocation> = Vec::new();
    let mut i: usize = 0;
    while i < spawners.len()
        invariant
            i <= spawners@.len(),
            available@ == free_places(spawners@.take(i as int), objects@, agents@),
        decreases spawners@.len() - i,
    {
        proof {
            assert(spawners@.take(i + 1).drop_last() =~= spawners@.take(i as int));
        }
        let place = spawners[i];
        if !object_lies_at(objects, place) && !is_occupied(agents, place) {
            available.push(place);
        }
        i = i + 1;
    }
    assert(spawners@.take(i as int) =~= spawners@);
    available
}

/// The place where the next agent enters: of the places handed in, the last
/// of those farthest from the closest agent; `None` where no place is
/// handed in.
pub fn choose_spawn_location(available: &Vec<TileLocation>, agents: &Vec<TileLocation>) -> (chosen:
    Option<TileLocation>)
    ensures
        match chosen {
            Some(place) => available@.len() > 0 && place == available@[best_place(
                available@,
                agents@,
            )],
            None => available@.len() == 0,
        },
{
    let mut best: Option<(usize, u32)> = None;
    let mut i: usize = 0;
    while i < available.len()
        invariant
            i <= available@.len(),
            match best {
                Some((index, distance)) => index == best_place(
                    available@.take(i as int),
                    agents@,
                ) && index < i && distance == closest(available@[index as int], agents@),
                None => i == 0,
            },
        decreases available@.len() - i,
    {
        proof {
            assert(available@.take(i + 1).drop_last() =~= available@.take(i as int));
            lemma_best_place(available@.take(i as int), agents@);
        }
        let distance = available[i].taxicab_distance_to_closest(agents);
        best = match best {
            Some((index, best_distance)) => {
                if distance >= best_distance {
                    Some((i, distance))
                } else {
                    Some((index, best_distance))
                }
            },
            None => Some((i, distance)),
        };
        i = i + 1;
    }
    assert(available@.take(i as int) =~= available@);
    match best {
        Some((index, _)) => Some(available[index]),
        None => None,
    }
}

} // verus!
