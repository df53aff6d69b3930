//! The labyrinth game: a hero walking a maze, decided by a module that asks
//! the host about one neighbouring tile at a time and answers with a single
//! number.

pub mod heroes;
pub mod labyrinth;
pub mod world;

use crate::codec::MalformedPayload;
use crate::hero::world::{outlook, Direction, Tile, World};
use vstd::prelude::*;

verus! {

/// What a hero decides to do with its turn.
#[derive(Copy, Clone, Debug, PartialEq, Eq, Structural)]
pub enum Action {
    Move(Direction),
    StayStill,
}

/// What a hero's module has to provide.
pub trait Hero: Sized {
    /// What the hero, as it is, does where the tiles around it are as
    /// given. A hero says here what `act` decides.
    open spec fn decision(&self, tiles: spec_fn(Direction) -> Tile) -> Action {
        arbitrary()
    }

    /// The hero as it enters the labyrinth.
    fn spawn() -> Self;

    /// The hero's decision, given a world it can inspect.
    fn act<W: World>(&mut self, world: &W) -> (action: Action)
        ensures
            action == old(self).decision(outlook(world)),
    ;
}

impl Action {
    /// The number that stands for an action: zero for standing still, and
    /// one more than the direction's number for a move.
    pub open spec fn raw(self) -> u32 {
        match self {
            Action::StayStill => 0,
            Action::Move(direction) => (direction.index() + 1) as u32,
        }
    }

    /// The action that a number stands for. Numbers beyond the last
    /// direction stand for nothing.
    pub open spec fn of_raw(raw: u32) -> Option<Action> {
        if raw == 0 {
            Some(Action::StayStill)
        } else {
            match Direction::at((raw - 1) as u32) {
                Some(direction) => Some(Action::Move(direction)),
                None => None,
            }
        }
    }

    /// The number handed across the sandbox boundary for this action.
    pub fn into_raw(self) -> (raw: u32)
        ensures
            raw == self.raw(),
            Action::of_raw(raw) == Some(self),
    {
        match self {
            Action::StayStill => 0,
            Action::Move(direction) => direction.into_raw() + 1,
        }
    }

    /// The action behind a number handed across the sandbox boundary. A
    /// number that stands for no action is a malformed payload.
    pub fn from(raw: u32) -> (action: Result<Action, MalformedPayload>)
        ensures
            match Action::of_raw(raw) {
                Some(found) => action == Ok::<Action, MalformedPayload>(found),
                None => action == Err::<Action, MalformedPayload>(MalformedPayload),
            },
    {
        if raw == 0 {
            Ok(Action::StayStill)
        } else {
            match Direction::from(raw - 1) {
                Ok(direction) => Ok(Action::Move(direction)),
                Err(error) => Err(error),
            }
        }
    }
}

/// The module's side of a turn: lets the hero decide and hands back the
/// number that stands for its decision.
pub fn hero_act<H: Hero, W: World>(hero: &mut H, world: &W) -> (raw: u32)
    ensures
        raw == old(hero).decision(outlook(world)).raw(),
        Action::of_raw(raw) == Some(old(hero).decision(outlook(world))),
{
    hero.act(world).into_raw()
}

/// The host's side of a turn: the action behind the number that a module
/// returned. A number that stands for no action is a malformed payload.
pub fn wasm_hero_action(raw: u32) -> (action: Result<Action, MalformedPayload>)
    ensures
        match Action::of_raw(raw) {
            Some(found) => action == Ok::<Action, MalformedPayload>(found),
            None => action == Err::<Action, MalformedPayload>(MalformedPayload),
        },
{
    Action::from(raw)
}

} // verus!
