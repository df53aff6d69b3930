//! The lifecycle of agents: which modules have a live agent in the arena, and
//! how agents come and go.
//!
//! A module never has two agents, and while it has one, its handle is ready
//! to spawn: a misbehaved or respawning module has no agent.

use crate::fuel::{FuelMeter, InternalInvariantViolation, FUEL_PER_TICK};
use crate::game_map::TileLocation;
use crate::player::{wasm_act, wasm_name, wasm_team_name};
use crate::player_hotswap::{
    banned_in, distinct, handle_ids, killed_in, lemma_admitted, lemma_kept, reconciled,
    ticked_all, unbanned_in, ModuleId, PlayerHandle, PlayerHandles, MAX_PLAYERS,
};
use crate::sandbox::{Runtime, Sandbox, SandboxError};
use crate::spawning::{
    available_spawn_locations, best_place, choose_spawn_location, free_places,
};
use crate::text::{filter_name, filtered_name, MAX_NAME_LENGTH, MAX_TEAM_NAME_LENGTH};
use crate::turn::{apply_action, outcome_of, surroundings, view_of, ActionOutcome};
use crate::world::{sightings_view, Action, Enemy, LastTurnResult, Object, Sighting, Tile};
use vstd::prelude::*;

verus! {

/// A live, in-arena instance of one player's module.
pub struct Agent {
    /// The module that decides for this agent.
    pub module: ModuleId,
    /// The module's own store and instance. Nobody else touches them.
    pub sandbox: Sandbox,
    pub location: TileLocation,
    pub name: String,
    pub team: String,
    pub score: u32,
    /// How much fuel the agent has used.
    pub fuel: FuelMeter,
    /// What became of the agent's last action.
    pub last_result: LastTurnResult,
}

/// A module that has been started and has told its names: all that is
/// needed to put its agent into the arena.
pub struct Recruit {
    pub sandbox: Sandbox,
    pub name: String,
    pub team: String,
}

/// The modules with an agent, and the agents.
pub struct Arena {
    handles: PlayerHandles,
    agents: Vec<Agent>,
    /// The fuel that every agent is granted for each of its turns.
    fuel_per_turn: u64,
}

/// What became of an attempt to put a module's agent into the arena.
#[derive(Copy, Clone, Debug, PartialEq, Eq, Structural)]
pub enum SpawnOutcome {
    /// The agent has entered the arena.
    Spawned,
    /// The module could not be started: it is banned, with the reason kept
    /// on its handle.
    Banned,
    /// The module is not ready to spawn, or has an agent already. Nothing
    /// has changed.
    NotSpawnable,
}

/// The modules of a list of agents, in the order of the list.
pub open spec fn agent_modules(agents: Seq<Agent>) -> Seq<ModuleId> {
    Seq::new(agents.len(), |i: int| agents[i].module)
}

/// How many agents a module has.
pub open spec fn agents_of(agents: Seq<Agent>, id: ModuleId) -> nat
    decreases agents.len(),
{
    if agents.len() == 0 {
        0
    } else {
        agents_of(agents.drop_last(), id) + if agents.last().module == id {
            1nat
        } else {
            0nat
        }
    }
}

/// Whether a list of handles holds a handle for the module that is ready to
/// spawn.
pub open spec fn ready(handles: Seq<PlayerHandle>, id: ModuleId) -> bool {
    exists|i: int| 0 <= i < handles.len() && #[trigger] handles[i] == PlayerHandle::ReadyToSpawn(id)
}

/// The agents of modules that are still present, in their old order.
pub open spec fn staying(agents: Seq<Agent>, present: Seq<ModuleId>) -> Seq<Agent>
    decreases agents.len(),
{
    if agents.len() == 0 {
        Seq::empty()
    } else {
        let front = staying(agents.drop_last(), present);
        if present.contains(agents.last().module) {
            front.push(agents.last())
        } else {
            front
        }
    }
}

/// The agents of modules that are gone, in their old order.
pub open spec fn leaving(agents: Seq<Agent>, present: Seq<ModuleId>) -> Seq<Agent>
    decreases agents.len(),
{
    if agents.len() == 0 {
        Seq::empty()
    } else {
        let front = leaving(agents.drop_last(), present);
        if present.contains(agents.last().module) {
            front
        } else {
            front.push(agents.last())
        }
    }
}

/// The agents but the one of a module.
pub open spec fn without(agents: Seq<Agent>, id: ModuleId) -> Seq<Agent>
    decreases agents.len(),
{
    if agents.len() == 0 {
        Seq::empty()
    } else {
        let front = without(agents.drop_last(), id);
        if agents.last().module == id {
            front
        } else {
            front.push(agents.last())
        }
    }
}

/// The agent of a module, where it has one.
pub open spec fn agent_of(agents: Seq<Agent>, id: ModuleId) -> Option<Agent>
    decreases agents.len(),
{
    if agents.len() == 0 {
        None
    } else if agents[0].module == id {
        Some(agents[0])
    } else {
        agent_of(agents.drop_first(), id)
    }
}

/// Among agents of distinct modules, no module has more than one.
pub proof fn lemma_distinct_counts(agents: Seq<Agent>, id: ModuleId)
    requires
        distinct(agent_modules(agents)),
    ensures
        agents_of(agents, id) <= 1,
        agents_of(agents, id) == 1 <==> agent_modules(agents).contains(id),
    decreases agents.len(),
{
    if agents.len() > 0 {
        let shorter = agents.drop_last();
        assert forall|i: int, j: int| 0 <= i < j < shorter.len() implies agent_modules(shorter)[i]
            != agent_modules(shorter)[j] by {
            assert(agent_modules(agents)[i] != agent_modules(agents)[j]);
        }
        lemma_distinct_counts(shorter, id);
        if agents.last().module == id {
            assert(agent_modules(agents)[agents.len() - 1] == id);
            if agent_modules(shorter).contains(id) {
                let k = choose|k: int| 0 <= k < shorter.len() && agent_modules(shorter)[k] == id;
                assert(agent_modules(agents)[k] != agent_modules(agents)[agents.len() - 1]);
            }
        } else {
            if agent_modules(agents).contains(id) {
                let k = choose|k: int| 0 <= k < agents.len() && agent_modules(agents)[k] == id;
                assert(agent_modules(shorter)[k] == id);
            }
            if agent_modules(shorter).contains(id) {
                let k = choose|k: int| 0 <= k < shorter.len() && agent_modules(shorter)[k] == id;
                assert(agent_modules(agents)[k] == id);
            }
        }
    }
}

/// Where no agent belongs to a module, taking that module's agent away
/// changes nothing.
pub proof fn lemma_without_absent(agents: Seq<Agent>, id: ModuleId)
    requires
        !agent_modules(agents).contains(id),
    ensures
        without(agents, id) == agents,
    decreases agents.len(),
{
    if agents.len() > 0 {
        let shorter = agents.drop_last();
        assert(agent_modules(agents)[agents.len() - 1] != id);
        assert forall|k: int| 0 <= k < shorter.len() implies agent_modules(shorter)[k] != id by {
            assert(agent_modules(agents)[k] != id);
        }
        lemma_without_absent(shorter, id);
        assert(shorter.push(agents.last()) =~= agents);
    } else {
        assert(agents =~= Seq::empty());
    }
}

/// Among agents of distinct modules, taking a module's agent away is taking
/// away the one place of the list where it stands.
pub proof fn lemma_without_removes(agents: Seq<Agent>, index: int)
    requires
        distinct(agent_modules(agents)),
        0 <= index < agents.len(),
    ensures
        without(agents, agents[index].module) == agents.remove(index),
    decreases agents.len(),
{
    let id = agents[index].module;
    let shorter = agents.drop_last();
    assert forall|i: int, j: int| 0 <= i < j < shorter.len() implies agent_modules(shorter)[i]
        != agent_modules(shorter)[j] by {
        assert(agent_modules(agents)[i] != agent_modules(agents)[j]);
    }
    if index == agents.len() - 1 {
        assert forall|k: int| 0 <= k < shorter.len() implies agent_modules(shorter)[k] != id by {
            assert(agent_modules(agents)[k] != agent_modules(agents)[index]);
        }
        lemma_without_absent(shorter, id);
        assert(agents.remove(index) =~= shorter);
    } else {
        assert(agent_modules(agents)[index] != agent_modules(agents)[agents.len() - 1]);
        lemma_without_removes(shorter, index);
        assert(shorter.remove(index).push(agents.last()) =~= agents.remove(index));
    }
}

/// What is left of a list of agents names only modules of the list, and
/// names none twice if the list named none twice.
pub proof fn lemma_staying(agents: Seq<Agent>, present: Seq<ModuleId>)
    ensures
        forall|i: int|
            0 <= i < staying(agents, present).len() ==> agents.contains(
                #[trigger] staying(agents, present)[i],
            ) && present.contains(staying(agents, present)[i].module),
        distinct(agent_modules(agents)) ==> distinct(agent_modules(staying(agents, present))),
    decreases agents.len(),
{
    if agents.len() > 0 {
        let shorter = agents.drop_last();
        let front = staying(shorter, present);
        let whole = staying(agents, present);
        lemma_staying(shorter, present);
        assert forall|i: int| 0 <= i < whole.len() implies agents.contains(#[trigger] whole[i])
            && present.contains(whole[i].module) by {
            if i < front.len() {
                assert(whole[i] == front[i]);
                let k = choose|k: int| 0 <= k < shorter.len() && shorter[k] == front[i];
                assert(agents[k] == whole[i]);
            } else {
                assert(agents[agents.len() - 1] == whole[i]);
            }
        }
        if distinct(agent_modules(agents)) {
            assert forall|i: int, j: int| 0 <= i < j < shorter.len() implies agent_modules(
                shorter,
            )[i] != agent_modules(shorter)[j] by {
                assert(agent_modules(agents)[i] != agent_modules(agents)[j]);
            }
            assert forall|i: int, j: int| 0 <= i < j < whole.len() implies agent_modules(whole)[i]
                != agent_modules(whole)[j] by {
                if j < front.len() {
                    assert(agent_modules(front)[i] != agent_modules(front)[j]);
                } else {
                    let k = choose|k: int| 0 <= k < shorter.len() && shorter[k] == front[i];
                    assert(agent_modules(agents)[k] != agent_modules(agents)[agents.len() - 1]);
                }
            }
        }
    }
}

impl Arena {
    /// The handles, in list order.
    pub closed spec fn handles(&self) -> Seq<PlayerHandle> {
        self.handles@
    }

    /// The live agents, in the order in which they take their turns.
    pub closed spec fn agents(&self) -> Seq<Agent> {
        self.agents@
    }

    /// The list of handles is sound, no module has two agents, and the
    /// handle of every module with an agent is ready to spawn.
    pub open spec fn wf(&self) -> bool {
        &&& distinct(handle_ids(self.handles()))
        &&& self.handles().len() <= MAX_PLAYERS
        &&& distinct(agent_modules(self.agents()))
        &&& forall|i: int|
            0 <= i < self.agents().len() ==> ready(
                self.handles(),
                (#[trigger] self.agents()[i]).module,
            )
    }

    /// Whether a module has an agent.
    pub open spec fn live(&self, id: ModuleId) -> bool {
        agent_modules(self.agents()).contains(id)
    }

    /// Whether a module could be given an agent now: it is ready to spawn
    /// and has none.
    pub open spec fn spawnable(&self, id: ModuleId) -> bool {
        ready(self.handles(), id) && !self.live(id)
    }

    /// Whether the module is the first, in list order, that could be given
    /// an agent now.
    pub open spec fn next_in_line(&self, id: ModuleId) -> bool {
        exists|k: int|
            0 <= k < self.handles().len() && #[trigger] self.handles()[k]
                == PlayerHandle::ReadyToSpawn(id) && !self.live(id) && forall|j: int|
                0 <= j < k ==> !((#[trigger] self.handles()[j]) is ReadyToSpawn && !self.live(
                    self.handles()[j].id(),
                ))
    }

    /// Whether some module could be given an agent now.
    pub open spec fn has_spawnable(&self) -> bool {
        exists|j: int|
            0 <= j < self.handles().len() && (#[trigger] self.handles()[j]) is ReadyToSpawn
                && !self.live(self.handles()[j].id())
    }

    /// The fuel that every agent is granted for each of its turns.
    pub closed spec fn budget(&self) -> nat {
        self.fuel_per_turn as nat
    }

    /// An arena without modules and without agents, in which every agent
    /// gets the usual fuel for each of its turns.
    pub fn new() -> (arena: Arena)
        ensures
            arena.wf(),
            arena.handles().len() == 0,
            arena.agents().len() == 0,
            arena.budget() == FUEL_PER_TICK,
    {
        Arena::with_fuel_budget(FUEL_PER_TICK)
    }

    /// An arena without modules and without agents, in which every agent
    /// gets the given fuel for each of its turns.
    pub fn with_fuel_budget(fuel_per_turn: u64) -> (arena: Arena)
        ensures
            arena.wf(),
            arena.handles().len() == 0,
            arena.agents().len() == 0,
            arena.budget() == fuel_per_turn,
    {
        Arena { handles: PlayerHandles::new(), agents: Vec::new(), fuel_per_turn }
    }

    /// The fuel that every agent is granted for each of its turns.
    pub fn fuel_budget(&self) -> (fuel: u64)
        ensures
            fuel == self.budget(),
    {
        self.fuel_per_turn
    }

    /// The list of handles.
    pub fn handle_list(&self) -> (handles: &PlayerHandles)
        ensures
            handles@ == self.handles(),
    {
        &self.handles
    }

    /// How many agents are alive.
    pub fn agent_count(&self) -> (count: usize)
        ensures
            count == self.agents().len(),
    {
        self.agents.len()
    }

    /// The agent at a position of the turn order.
    pub fn agent(&self, index: usize) -> (agent: &Agent)
        requires
            index < self.agents().len(),
        ensures
            *agent == self.agents()[index as int],
    {
        &self.agents[index]
    }

    /// Where in the turn order the agent of a module stands.
    pub fn agent_position(&self, id: ModuleId) -> (position: Option<usize>)
        ensures
            match position {
                Some(index) => index < self.agents().len() && self.agents()[index as int].module
                    == id && self.live(id),
                None => !self.live(id),
            },
    {
        let mut i: usize = 0;
        while i < self.agents.len()
            invariant
                i <= self.agents@.len(),
                forall|j: int| 0 <= j < i ==> agent_modules(self.agents@)[j] != id,
            decreases self.agents@.len() - i,
        {
            if self.agents[i].module == id {
                assert(agent_modules(self.agents@)[i as int] == id);
                return Some(i);
            }
            i = i + 1;
        }
        None
    }

    /// Sets the score that rivals are told of an agent.
    pub fn set_score(&mut self, index: usize, score: u32)
        requires
            old(self).wf(),
            index < old(self).agents().len(),
        ensures
            final(self).wf(),
            final(self).budget() == old(self).budget(),
            final(self).handles() == old(self).handles(),
            final(self).agents().len() == old(self).agents().len(),
            agent_modules(final(self).agents()) == agent_modules(old(self).agents()),
            final(self).agents()[index as int].score == score,
    {
        let mut agent = self.agents.remove(index);
        agent.score = score;
        self.agents.insert(index, agent);
        proof {
            assert(agent_modules(self.agents@) =~= agent_modules(old(self).agents@));
            assert forall|i: int| 0 <= i < self.agents@.len() implies ready(
                self.handles@,
                (#[trigger] self.agents@[i]).module,
            ) by {
                assert(self.agents@[i].module == old(self).agents@[i].module);
            }
        }
    }

    /// Brings the arena in step with the modules that are present: the list
    /// of handles is reconciled, and the agents of modules that are gone
    /// leave the arena at once. They are handed back, in turn order.
    pub fn reconcile(&mut self, present: &Vec<ModuleId>) -> (despawned: Vec<Agent>)
        requires
            old(self).wf(),
        ensures
            final(self).wf(),
            final(self).budget() == old(self).budget(),
            final(self).handles() == reconciled(old(self).handles(), present@),
            final(self).agents() == staying(old(self).agents(), present@),
            despawned@ == leaving(old(self).agents(), present@),
    {
        self.handles.reconcile(present);
        let mut despawned: Vec<Agent> = Vec::new();
        let ghost initial = self.agents@;
        let ghost new_handles = self.handles@;
        let ghost mut seen: int = 0;
        let mut i: usize = 0;
        assert(initial.take(0) =~= Seq::empty());
        assert(self.agents@ =~= staying(initial.take(0), present@) + initial.skip(0));
        while i < self.agents.len()
            invariant
                0 <= seen <= initial.len(),
                i == staying(initial.take(seen), present@).len(),
                self.agents@ == staying(initial.take(seen), present@) + initial.skip(seen),
                despawned@ == leaving(initial.take(seen), present@),
                self.handles@ == new_handles,
                self.fuel_per_turn == old(self).fuel_per_turn,
            decreases initial.len() - seen,
        {
            proof {
                assert(initial.take(seen + 1).drop_last() =~= initial.take(seen));
                assert(self.agents@[i as int] == initial[seen]);
            }
            if crate::player_hotswap::contains_id(present, self.agents[i].module) {
                proof {
                    assert(self.agents@ =~= staying(initial.take(seen + 1), present@)
                        + initial.skip(seen + 1));
                    seen = seen + 1;
                }
                i = i + 1;
            } else {
                let gone = self.agents.remove(i);
                despawned.push(gone);
                proof {
                    assert(self.agents@ =~= staying(initial.take(seen + 1), present@)
                        + initial.skip(seen + 1));
                    seen = seen + 1;
                }
            }
        }
        proof {
            assert(seen == initial.len());
            assert(initial.take(seen) =~= initial);
            assert(self.agents@ =~= staying(initial, present@));
            lemma_staying(initial, present@);
            let old_handles = old(self).handles();
            lemma_kept(old_handles, present@);
            let base = crate::player_hotswap::kept(old_handles, present@);
            lemma_admitted(base, present@, MAX_PLAYERS as nat);
            assert forall|i: int| 0 <= i < self.agents@.len() implies ready(
                self.handles@,
                (#[trigger] self.agents@[i]).module,
            ) by {
                let agent = self.agents@[i];
                let k = choose|k: int| 0 <= k < initial.len() && initial[k] == agent;
                let h = choose|h: int|
                    0 <= h < old_handles.len() && #[trigger] old_handles[h]
                        == PlayerHandle::ReadyToSpawn(agent.module);
                assert(present@.contains(old_handles[h].id()));
                assert(base.contains(old_handles[h]));
                let b = choose|b: int| 0 <= b < base.len() && base[b] == old_handles[h];
                assert(self.handles@[b] == PlayerHandle::ReadyToSpawn(agent.module));
            }
        }
        despawned
    }

    /// The first module, in list order, that is ready to spawn and has no
    /// agent.
    pub fn next_spawn(&self) -> (next: Option<ModuleId>)
        ensures
            match next {
                Some(id) => self.spawnable(id) && self.next_in_line(id) && exists|k: int|
                    0 <= k < self.handles().len() && #[trigger] self.handles()[k]
                        == PlayerHandle::ReadyToSpawn(id) && forall|j: int|
                        0 <= j < k ==> !((#[trigger] self.handles()[j]) is ReadyToSpawn
                            && !self.live(self.handles()[j].id())),
                None => forall|j: int|
                    0 <= j < self.handles().len() ==> !((#[trigger] self.handles()[j])
                        is ReadyToSpawn && !self.live(self.handles()[j].id())),
            },
    {
        let mut i: usize = 0;
        while i < self.handles.len()
            invariant
                i <= self.handles@.len(),
                forall|j: int|
                    0 <= j < i ==> !((#[trigger] self.handles@[j]) is ReadyToSpawn && !self.live(
                        self.handles@[j].id(),
                    )),
            decreases self.handles@.len() - i,
        {
            let handle = self.handles.get(i);
            if handle.is_ready_to_spawn() {
                let id = handle.inner();
                if self.agent_position(id).is_none() {
                    assert(self.handles()[i as int] == PlayerHandle::ReadyToSpawn(id));
                    return Some(id);
                }
            }
            i = i + 1;
        }
        None
    }

    /// Whether a module is ready to spawn and has no agent.
    pub fn is_spawnable(&self, id: ModuleId) -> (spawnable: bool)
        requires
            self.wf(),
        ensures
            spawnable == self.spawnable(id),
    {
        match self.handles.position(id) {
            Some(index) => {
                let is_ready = self.handles.get(index).is_ready_to_spawn();
                proof {
                    if is_ready {
                        assert(self.handles()[index as int] == PlayerHandle::ReadyToSpawn(id));
                    } else {
                        assert forall|i: int| 0 <= i < self.handles().len() implies self.handles()[i]
                            != PlayerHandle::ReadyToSpawn(id) by {
                            if i != index {
                                assert(handle_ids(self.handles())[i] != handle_ids(
                                    self.handles(),
                                )[index as int]);
                            }
                        }
                    }
                }
                is_ready && self.agent_position(id).is_none()
            },
            None => {
                proof {
                    assert forall|i: int| 0 <= i < self.handles().len() implies self.handles()[i]
                        != PlayerHandle::ReadyToSpawn(id) by {
                        assert(self.handles()[i].id() != id);
                    }
                }
                false
            },
        }
    }

    /// Concludes an attempt to start a module: a started module's agent
    /// enters the arena at `location`, last in the turn order, with no score
    /// and no fuel used; a module that could not be started is banned with
    /// the reason given. A module that is not spawnable is left alone, and
    /// so is everything else.
    pub fn enlist(&mut self, id: ModuleId, location: TileLocation, attempt: Result<Recruit, String>) -> (outcome:
        SpawnOutcome)
        requires
            old(self).wf(),
        ensures
            final(self).wf(),
            final(self).budget() == old(self).budget(),
            !old(self).spawnable(id) ==> {
                &&& outcome == SpawnOutcome::NotSpawnable
                &&& final(self).handles() == old(self).handles()
                &&& final(self).agents() == old(self).agents()
            },
            old(self).spawnable(id) ==> match attempt {
                Err(reason) => {
                    &&& outcome == SpawnOutcome::Banned
                    &&& final(self).handles() == banned_in(old(self).handles(), id, reason)
                    &&& final(self).agents() == old(self).agents()
                },
                Ok(recruit) => {
                    &&& outcome == SpawnOutcome::Spawned
                    &&& final(self).handles() == old(self).handles()
                    &&& final(self).agents().len() == old(self).agents().len() + 1
                    &&& final(self).agents().drop_last() == old(self).agents()
                    &&& final(self).agents().last().module == id
                    &&& final(self).agents().last().location == location
                    &&& final(self).agents().last().sandbox == recruit.sandbox
                    &&& final(self).agents().last().name == recruit.name
                    &&& final(self).agents().last().team == recruit.team
                    &&& final(self).agents().last().score == 0
                    &&& final(self).agents().last().fuel.total() == 0
                    &&& final(self).agents().last().fuel.since_top_up() == 0
                    &&& final(self).agents().last().fuel.grant() == old(self).budget()
                    &&& final(self).agents().last().last_result == LastTurnResult::StoodStill
                },
            },
    {
        if !self.is_spawnable(id) {
            return SpawnOutcome::NotSpawnable;
        }
        match attempt {
            Err(reason) => {
                self.handles.ban(id, reason);
                proof {
                    assert forall|i: int| 0 <= i < self.agents@.len() implies ready(
                        self.handles@,
                        (#[trigger] self.agents@[i]).module,
                    ) by {
                        let module = self.agents@[i].module;
                        assert(agent_modules(self.agents@)[i] == module);
                        let h = choose|h: int|
                            0 <= h < old(self).handles().len() && #[trigger] old(self).handles()[h]
                                == PlayerHandle::ReadyToSpawn(module);
                        assert(self.handles@[h] == PlayerHandle::ReadyToSpawn(module));
                    }
                }
                SpawnOutcome::Banned
            },
            Ok(recruit) => {
                let mut fuel = FuelMeter::new();
                fuel.top_up(self.fuel_per_turn);
                let agent = Agent {
                    module: id,
                    sandbox: recruit.sandbox,
                    location,
                    name: recruit.name,
                    team: recruit.team,
                    score: 0,
                    fuel,
                    last_result: LastTurnResult::StoodStill,
                };
                self.agents.push(agent);
                proof {
                    assert(self.agents@.drop_last() =~= old(self).agents@);
                    assert forall|i: int, j: int|
                        0 <= i < j < self.agents@.len() implies agent_modules(self.agents@)[i]
                        != agent_modules(self.agents@)[j] by {
                        if j < old(self).agents@.len() {
                            assert(agent_modules(old(self).agents@)[i] != agent_modules(
                                old(self).agents@,
                            )[j]);
                        } else {
                            assert(agent_modules(old(self).agents@)[i] != id);
                        }
                    }
                    assert forall|i: int| 0 <= i < self.agents@.len() implies ready(
                        self.handles@,
                        (#[trigger] self.agents@[i]).module,
                    ) by {
                        if i < old(self).agents@.len() {
                            assert(self.agents@[i] == old(self).agents@[i]);
                        }
                    }
                }
                SpawnOutcome::Spawned
            },
        }
    }

    /// Bans a module: its agent, if it has one, leaves the arena and is
    /// handed back, and its handle is misbehaved from now on. Banning a
    /// module that is banned already changes nothing.
    pub fn ban(&mut self, id: ModuleId, reason: String) -> (removed: Option<Agent>)
        requires
            old(self).wf(),
        ensures
            final(self).wf(),
            final(self).budget() == old(self).budget(),
            final(self).handles() == banned_in(old(self).handles(), id, reason),
            final(self).agents() == without(old(self).agents(), id),
            removed == agent_of(old(self).agents(), id),
            !final(self).live(id),
            !old(self).live(id) ==> final(self).agents() == old(self).agents(),
    {
        let removed = self.take_agent(id);
        self.handles.ban(id, reason);
        proof {
            assert forall|i: int| 0 <= i < self.agents@.len() implies ready(
                self.handles@,
                (#[trigger] self.agents@[i]).module,
            ) by {
                let module = self.agents@[i].module;
                assert(agent_modules(self.agents@)[i] == module);
                let h = choose|h: int|
                    0 <= h < old(self).handles().len() && #[trigger] old(self).handles()[h]
                        == PlayerHandle::ReadyToSpawn(module);
                assert(self.handles@[h] == PlayerHandle::ReadyToSpawn(module));
            }
        }
        removed
    }

    /// Takes the agent of a module out of the arena, if it has one.
    fn take_agent(&mut self, id: ModuleId) -> (removed: Option<Agent>)
        requires
            old(self).wf(),
        ensures
            final(self).handles == old(self).handles,
            final(self).budget() == old(self).budget(),
            final(self).agents() == without(old(self).agents(), id),
            removed == agent_of(old(self).agents(), id),
            removed is Some == old(self).live(id),
            !final(self).live(id),
            !old(self).live(id) ==> final(self).agents() == old(self).agents(),
            distinct(agent_modules(final(self).agents())),
            forall|i: int|
                0 <= i < final(self).agents().len() ==> old(self).agents().contains(
                    #[trigger] final(self).agents()[i],
                ) && final(self).agents()[i].module != id,
    {
        match self.agent_position(id) {
            Some(index) => {
                proof {
                    lemma_without_removes(self.agents@, index as int);
                    lemma_agent_of_found(self.agents@, index as int);
                    assert(agent_modules(self.agents@)[index as int] == id);
                }
                let agent = self.agents.remove(index);
                proof {
                    let before = old(self).agents@;
                    let after = self.agents@;
                    assert forall|i: int| 0 <= i < after.len() implies before.contains(
                        #[trigger] after[i],
                    ) && after[i].module != id by {
                        let source = if i < index {
                            i
                        } else {
                            i + 1
                        };
                        assert(after[i] == before[source]);
                        assert(agent_modules(before)[source] != agent_modules(before)[index as int]);
                    }
                    assert forall|i: int, j: int| 0 <= i < j < after.len() implies agent_modules(
                        after,
                    )[i] != agent_modules(after)[j] by {
                        let si = if i < index {
                            i
                        } else {
                            i + 1
                        };
                        let sj = if j < index {
                            j
                        } else {
                            j + 1
                        };
                        assert(agent_modules(before)[si] != agent_modules(before)[sj]);
                    }
                    assert(!agent_modules(after).contains(id)) by {
                        if agent_modules(after).contains(id) {
                            let k = choose|k: int|
                                0 <= k < after.len() && agent_modules(after)[k] == id;
                            assert(after[k].module == id);
                        }
                    }
                }
                Some(agent)
            },
            None => {
                proof {
                    lemma_without_absent(self.agents@, id);
                    lemma_agent_of_absent(self.agents@, id);
                    assert forall|i: int| 0 <= i < self.agents@.len() implies self.agents@[i].module
                        != id by {
                        assert(agent_modules(self.agents@)[i] == self.agents@[i].module);
                    }
                }
                None
            },
        }
    }

    /// Lets the agent of a module die: it leaves the arena and is handed
    /// back, and its module waits before it is ready to spawn again. A module
    /// without an agent is left alone.
    pub fn kill(&mut self, id: ModuleId) -> (removed: Option<Agent>)
        requires
            old(self).wf(),
        ensures
            final(self).wf(),
            final(self).budget() == old(self).budget(),
            removed == agent_of(old(self).agents(), id),
            old(self).live(id) ==> {
                &&& final(self).handles() == killed_in(old(self).handles(), id)
                &&& final(self).agents() == without(old(self).agents(), id)
            },
            !old(self).live(id) ==> {
                &&& final(self).handles() == old(self).handles()
                &&& final(self).agents() == old(self).agents()
            },
            !final(self).live(id),
    {
        let removed = self.take_agent(id);
        if removed.is_some() {
            self.handles.kill(id);
            proof {
                assert forall|i: int| 0 <= i < self.agents@.len() implies ready(
                    self.handles@,
                    (#[trigger] self.agents@[i]).module,
                ) by {
                    let module = self.agents@[i].module;
                    let h = choose|h: int|
                        0 <= h < old(self).handles().len() && #[trigger] old(self).handles()[h]
                            == PlayerHandle::ReadyToSpawn(module);
                    assert(self.handles@[h] == PlayerHandle::ReadyToSpawn(module));
                }
            }
        }
        removed
    }

    /// Lets one world tick pass: modules that wait to respawn wait one tick
    /// less, or are ready.
    pub fn world_tick(&mut self)
        requires
            old(self).wf(),
        ensures
            final(self).wf(),
            final(self).budget() == old(self).budget(),
            final(self).handles() == ticked_all(old(self).handles()),
            final(self).agents() == old(self).agents(),
    {
        self.handles.tick();
        proof {
            assert forall|i: int| 0 <= i < self.agents@.len() implies ready(
                self.handles@,
                (#[trigger] self.agents@[i]).module,
            ) by {
                let module = self.agents@[i].module;
                let h = choose|h: int|
                    0 <= h < old(self).handles().len() && #[trigger] old(self).handles()[h]
                        == PlayerHandle::ReadyToSpawn(module);
                assert(self.handles@[h] == PlayerHandle::ReadyToSpawn(module));
            }
        }
    }

    /// Takes note that modules have changed: the misbehaved ones among them
    /// get a second chance. Agents are not touched.
    pub fn unban(&mut self, changed: &Vec<ModuleId>)
        requires
            old(self).wf(),
        ensures
            final(self).wf(),
            final(self).budget() == old(self).budget(),
            final(self).handles() == unbanned_in(old(self).handles(), changed@),
            final(self).agents() == old(self).agents(),
    {
        self.handles.unban(changed);
        proof {
            assert forall|i: int| 0 <= i < self.agents@.len() implies ready(
                self.handles@,
                (#[trigger] self.agents@[i]).module,
            ) by {
                let module = self.agents@[i].module;
                let h = choose|h: int|
                    0 <= h < old(self).handles().len() && #[trigger] old(self).handles()[h]
                        == PlayerHandle::ReadyToSpawn(module);
                assert(self.handles@[h] == PlayerHandle::ReadyToSpawn(module));
            }
        }
    }
}

/// The agent found for a module is the one standing where the module's
/// agent stands.
pub proof fn lemma_agent_of_found(agents: Seq<Agent>, index: int)
    requires
        distinct(agent_modules(agents)),
        0 <= index < agents.len(),
    ensures
        agent_of(agents, agents[index].module) == Some(agents[index]),
    decreases agents.len(),
{
    if index > 0 {
        assert(agent_modules(agents)[0] != agent_modules(agents)[index]);
        let rest = agents.drop_first();
        assert forall|i: int, j: int| 0 <= i < j < rest.len() implies agent_modules(rest)[i]
            != agent_modules(rest)[j] by {
            assert(agent_modules(agents)[i + 1] != agent_modules(agents)[j + 1]);
        }
        lemma_agent_of_found(rest, index - 1);
    }
}

/// No agent is found for a module without one.
pub proof fn lemma_agent_of_absent(agents: Seq<Agent>, id: ModuleId)
    requires
        !agent_modules(agents).contains(id),
    ensures
        agent_of(agents, id) is None,
    decreases agents.len(),
{
    if agents.len() > 0 {
        assert(agent_modules(agents)[0] != id);
        let rest = agents.drop_first();
        assert forall|k: int| 0 <= k < rest.len() implies agent_modules(rest)[k] != id by {
            assert(agent_modules(agents)[k + 1] != id);
        }
        lemma_agent_of_absent(rest, id);
    }
}

/// At any time, a module has one agent or none.
pub proof fn law_at_most_one_agent(arena: Arena, id: ModuleId)
    requires
        arena.wf(),
    ensures
        agents_of(arena.agents(), id) <= 1,
        agents_of(arena.agents(), id) == 1 <==> arena.live(id),
{
    lemma_distinct_counts(arena.agents(), id);
}

/// A module with an agent is ready to spawn: a misbehaved or respawning
/// module has no agent.
pub proof fn law_live_modules_are_ready(arena: Arena, index: int)
    requires
        arena.wf(),
        0 <= index < arena.handles().len(),
        !(arena.handles()[index] is ReadyToSpawn),
    ensures
        !arena.live(arena.handles()[index].id()),
        agents_of(arena.agents(), arena.handles()[index].id()) == 0,
{
    let id = arena.handles()[index].id();
    lemma_distinct_counts(arena.agents(), id);
    if arena.live(id) {
        let k = choose|k: int| 0 <= k < arena.agents().len() && agent_modules(arena.agents())[k] == id;
        assert(arena.agents()[k].module == id);
        let h = choose|h: int|
            0 <= h < arena.handles().len() && #[trigger] arena.handles()[h]
                == PlayerHandle::ReadyToSpawn(id);
        if h != index {
            if h < index {
                assert(handle_ids(arena.handles())[h] != handle_ids(arena.handles())[index]);
            } else {
                assert(handle_ids(arena.handles())[index] != handle_ids(arena.handles())[h]);
            }
        }
    }
}

/// Banning a module that is banned already changes neither the handles nor
/// the agents.
pub proof fn law_ban_is_idempotent(arena: Arena, index: int, reason: String)
    requires
        arena.wf(),
        0 <= index < arena.handles().len(),
        arena.handles()[index] is Misbehaved,
    ensures
        banned_in(arena.handles(), arena.handles()[index].id(), reason) == arena.handles(),
        without(arena.agents(), arena.handles()[index].id()) == arena.agents(),
{
    let id = arena.handles()[index].id();
    let handles = arena.handles();
    assert forall|i: int| 0 <= i < handles.len() implies banned_in(handles, id, reason)[i]
        == handles[i] by {
        if i != index && handles[i].id() == id {
            if i < index {
                assert(handle_ids(handles)[i] != handle_ids(handles)[index]);
            } else {
                assert(handle_ids(handles)[index] != handle_ids(handles)[i]);
            }
        }
    }
    assert(banned_in(handles, id, reason) =~= handles);
    law_live_modules_are_ready(arena, index);
    lemma_without_absent(arena.agents(), id);
}

/// What became of a turn.
pub enum TurnReport {
    /// The agent acted. A move that could not be made is told in the
    /// outcome; fuel books that do not add up are told in `fuel`, and are the
    /// host's fault, not the agent's.
    Acted { action: Action, outcome: ActionOutcome, fuel: Result<u64, InternalInvariantViolation> },
    /// The module faulted: its agent has left the arena, and it is banned.
    Banned { agent: Agent, reason: String },
    /// The module was not asked: what the agent was to see did not fit the
    /// module's buffer. Nothing was written, the agent stands where it
    /// stood, and it may try again.
    Skipped,
}

/// An agent whose module has just been asked for a decision: its store has
/// been through the call, its books show the top-up, and all else is as it
/// was.
pub open spec fn asked(before: Agent, sandbox: Sandbox, budget: nat) -> Agent {
    Agent { sandbox, fuel: before.fuel.topped_up(budget as u64), ..before }
}

/// What a turn may make of an agent's store: it holds no more than one
/// turn's fuel, and is otherwise set up as it was.
pub open spec fn store_after_turn(before: Sandbox, after: Sandbox, budget: nat) -> bool {
    &&& after.fuel() <= budget
    &&& after.has_memory() == before.has_memory()
    &&& after.deadline() == before.deadline()
}

/// What the books say of a reading of the fuel left in the store: how much
/// was used, or that the reading cannot be entered.
pub open spec fn booked(meter: FuelMeter, reading: u64) -> Result<u64, InternalInvariantViolation> {
    if meter.accepts(reading) {
        Ok((meter.left() - reading) as u64)
    } else {
        Err(InternalInvariantViolation)
    }
}

/// Whether a report tells what a turn made of an agent: of one that acted,
/// where the rules put it and what its books say; of one that was skipped
/// or banned, that it is as it was but for its store and the top-up.
/// `after` is the agent as it stands in the arena after the turn; a banned
/// agent has left, and is told in the report itself.
pub open spec fn turn_told(
    report: TurnReport,
    before: Agent,
    after: Agent,
    budget: nat,
    tiles: Seq<(TileLocation, Tile)>,
    objects: Seq<(TileLocation, Object)>,
    occupied: Seq<TileLocation>,
) -> bool {
    match report {
        TurnReport::Acted { action, outcome, fuel } => {
            let topped = asked(before, after.sandbox, budget);
            &&& outcome == outcome_of(action, before.location, tiles, objects, occupied)
            &&& fuel == booked(topped.fuel, after.sandbox.fuel())
            &&& after == (Agent {
                location: outcome.location,
                last_result: outcome.result,
                fuel: topped.fuel.recorded(after.sandbox.fuel()),
                ..topped
            })
            &&& store_after_turn(before.sandbox, after.sandbox, budget)
        },
        TurnReport::Skipped => {
            &&& after == asked(before, after.sandbox, budget)
            &&& store_after_turn(before.sandbox, after.sandbox, budget)
        },
        TurnReport::Banned { agent, reason } => {
            &&& agent == asked(before, agent.sandbox, budget)
            &&& store_after_turn(before.sandbox, agent.sandbox, budget)
        },
    }
}

/// What the agent at place `index` of a list is told of the others: where
/// each stands, and its name, team and score, in the order of the list. The
/// agent itself is not among them.
pub open spec fn rivals_seen(agents: Seq<Agent>, index: int) -> Seq<(TileLocation, Enemy)> {
    Seq::new(
        (agents.len() - 1) as nat,
        |k: int|
            {
                let other = agents[if k < index {
                    k
                } else {
                    k + 1
                }];
                (
                    other.location,
                    Enemy { name: other.name, team_name: other.team, score: other.score },
                )
            },
    )
}

/// Where every agent of a list stands, in the order of the list.
pub open spec fn locations_of(agents: Seq<Agent>) -> Seq<TileLocation> {
    Seq::new(agents.len(), |i: int| agents[i].location)
}

/// How many of the turns reported left their agent in the arena.
pub open spec fn standing(reports: Seq<TurnReport>) -> nat
    decreases reports.len(),
{
    if reports.len() == 0 {
        0
    } else {
        standing(reports.drop_last()) + if reports.last() is Banned {
            0nat
        } else {
            1nat
        }
    }
}

/// The handles after the bans that the reports of a round tell of.
pub open spec fn handles_after(handles: Seq<PlayerHandle>, reports: Seq<TurnReport>) -> Seq<
    PlayerHandle,
>
    decreases reports.len(),
{
    if reports.len() == 0 {
        handles
    } else {
        let rest = handles_after(handles, reports.drop_last());
        match reports.last() {
            TurnReport::Banned { agent, reason } => banned_in(rest, agent.module, reason),
            _ => rest,
        }
    }
}

/// The modules whose agents are still in the arena after the turns
/// reported, in their old order: report `k` is of the module at place `k`.
pub open spec fn survivors(modules: Seq<ModuleId>, reports: Seq<TurnReport>) -> Seq<ModuleId>
    decreases reports.len(),
{
    if reports.len() == 0 || reports.len() > modules.len() {
        Seq::empty()
    } else {
        let rest = survivors(modules, reports.drop_last());
        if reports.last() is Banned {
            rest
        } else {
            rest.push(modules[reports.len() - 1])
        }
    }
}

/// Whether the reports of a round tell of a ban of the module.
pub open spec fn banned_by(reports: Seq<TurnReport>, id: ModuleId) -> bool {
    exists|k: int|
        0 <= k < reports.len() && (#[trigger] reports[k]) is Banned && reports[k]->agent.module
            == id
}

/// Whether a list of handles tells that the module misbehaved, and why.
pub open spec fn misbehaved(handles: Seq<PlayerHandle>, id: ModuleId, reason: String) -> bool {
    exists|i: int|
        0 <= i < handles.len() && #[trigger] handles[i] == PlayerHandle::Misbehaved(id, reason)
}

/// Whether report `k` of a round tells what became of the agent that stood
/// at place `k` when the round began. `before` and `after` are the agents
/// before and after the round, `handles` the handles after it.
///
/// An agent that was not banned stands behind those before it that were
/// not banned either, and is as its report says. A banned agent's module
/// has no agent any more, and its handle says why.
pub open spec fn round_told(
    reports: Seq<TurnReport>,
    k: int,
    before: Seq<Agent>,
    after: Seq<Agent>,
    handles: Seq<PlayerHandle>,
    budget: nat,
    tiles: Seq<(TileLocation, Tile)>,
    objects: Seq<(TileLocation, Object)>,
) -> bool {
    let place = standing(reports.take(k)) as int;
    &&& turn_told(reports[k], before[k], after[place], budget, tiles, objects, locations_of(before))
    &&& match reports[k] {
        TurnReport::Banned { agent, reason } => {
            &&& !agent_modules(after).contains(before[k].module)
            &&& misbehaved(handles, before[k].module, reason)
        },
        _ => place < after.len(),
    }
}

/// Whether an error of a decision call is a fault of the module, for which
/// it is banned. Everything is, but a view that was too large to hand over.
pub open spec fn is_fault(error: SandboxError) -> bool {
    !(error is BufferTooSmall)
}

/// Whether an error of a decision call is a fault of the module.
pub fn fault(error: &SandboxError) -> (faulty: bool)
    ensures
        faulty == is_fault(*error),
{
    match error {
        SandboxError::BufferTooSmall => false,
        _ => true,
    }
}

/// The words for an error: what the engine said where it said something,
/// and the name of the error otherwise.
pub open spec fn reason_of(error: SandboxError) -> Seq<char> {
    match error {
        SandboxError::Engine(text) => text@,
        SandboxError::Compile(text) => text@,
        SandboxError::Instantiate(text) => text@,
        SandboxError::Trap(text) => text@,
        SandboxError::MissingExport => "missing export"@,
        SandboxError::BufferTooSmall => "buffer too small"@,
        SandboxError::OutOfBounds => "buffer out of bounds"@,
        SandboxError::OutOfFuel => "out of fuel"@,
        SandboxError::TimedOut => "timed out"@,
        SandboxError::MalformedPayload => "malformed payload"@,
    }
}

/// Words for an error, for the reason kept on a banned handle.
pub fn fault_reason(error: SandboxError) -> (reason: String)
    ensures
        reason@ == reason_of(error),
{
    match error {
        SandboxError::Engine(text) => text,
        SandboxError::Compile(text) => text,
        SandboxError::Instantiate(text) => text,
        SandboxError::Trap(text) => text,
        SandboxError::MissingExport => "missing export".to_owned(),
        SandboxError::BufferTooSmall => "buffer too small".to_owned(),
        SandboxError::OutOfBounds => "buffer out of bounds".to_owned(),
        SandboxError::OutOfFuel => "out of fuel".to_owned(),
        SandboxError::TimedOut => "timed out".to_owned(),
        SandboxError::MalformedPayload => "malformed payload".to_owned(),
    }
}

/// What makes a recruit of a started module and its answers to the two name
/// queries: the names are cut to size; a failed name query makes the module
/// fail to start, with a reason that says which query it was.
pub fn recruit_from(
    sandbox: Sandbox,
    name: Result<String, SandboxError>,
    team: Result<String, SandboxError>,
) -> (recruit: Result<Recruit, String>)
    ensures
        match (name, team) {
            (Ok(name), Ok(team)) => {
                &&& recruit matches Ok(found)
                &&& found.sandbox == sandbox
                &&& found.name@ == filtered_name(name@, MAX_NAME_LENGTH as nat)
                &&& found.team@ == filtered_name(team@, MAX_TEAM_NAME_LENGTH as nat)
                &&& found.name@.len() <= MAX_NAME_LENGTH
                &&& found.team@.len() <= MAX_TEAM_NAME_LENGTH
            },
            (Err(_), _) => recruit matches Err(reason) && reason@ == "name query failed"@,
            (Ok(_), Err(_)) => recruit matches Err(reason) && reason@
                == "team name query failed"@,
        },
{
    let name = match name {
        Ok(name) => name,
        Err(_) => {
            return Err("name query failed".to_owned());
        },
    };
    let team = match team {
        Ok(team) => team,
        Err(_) => {
            return Err("team name query failed".to_owned());
        },
    };
    Ok(
        Recruit {
            sandbox,
            name: filter_name(name.as_str(), MAX_NAME_LENGTH),
            team: filter_name(team.as_str(), MAX_TEAM_NAME_LENGTH),
        },
    )
}

/// Whether a name is one that is shown: what is left of a name that some
/// module reported once it has been cut to size.
pub open spec fn is_shown_name(name: Seq<char>, max_length: nat) -> bool {
    exists|reported: Seq<char>| name == #[trigger] filtered_name(reported, max_length)
}

/// Starts a module: compiles it, gives it a store of its own charged with
/// the fuel given, and asks it for its names. Whether that works is up to
/// the module. A module that starts has a memory, has gained no fuel, runs
/// under the runtime's deadline, and has names that are fit to be shown.
pub fn start_module(runtime: &Runtime, bytes: &[u8], fuel: u64) -> (recruit: Result<
    Recruit,
    String,
>)
    ensures
        recruit matches Ok(found) ==> {
            &&& found.sandbox.has_memory()
            &&& found.sandbox.fuel() <= fuel
            &&& found.sandbox.deadline() == runtime.deadline()
            &&& is_shown_name(found.name@, MAX_NAME_LENGTH as nat)
            &&& is_shown_name(found.team@, MAX_TEAM_NAME_LENGTH as nat)
            &&& found.name@.len() <= MAX_NAME_LENGTH
            &&& found.team@.len() <= MAX_TEAM_NAME_LENGTH
        },
{
    let module = match runtime.compile(bytes) {
        Ok(module) => module,
        Err(error) => {
            return Err(fault_reason(error));
        },
    };
    let mut sandbox = match runtime.instantiate(&module, fuel) {
        Ok(sandbox) => sandbox,
        Err(error) => {
            return Err(fault_reason(error));
        },
    };
    let name = wasm_name(&mut sandbox);
    let team = wasm_team_name(&mut sandbox);
    recruit_from(sandbox, name, team)
}

/// Whether an agent is as one that has just entered the arena for a module
/// at a place: it has no score, has used no fuel, has not acted yet, and
/// bears names that are fit to be shown.
pub open spec fn newcomer(agent: Agent, id: ModuleId, location: TileLocation) -> bool {
    &&& agent.module == id
    &&& agent.location == location
    &&& agent.score == 0
    &&& agent.fuel.total() == 0
    &&& agent.fuel.since_top_up() == 0
    &&& agent.last_result == LastTurnResult::StoodStill
    &&& is_shown_name(agent.name@, MAX_NAME_LENGTH as nat)
    &&& is_shown_name(agent.team@, MAX_TEAM_NAME_LENGTH as nat)
    &&& agent.name@.len() <= MAX_NAME_LENGTH
    &&& agent.team@.len() <= MAX_TEAM_NAME_LENGTH
}

/// Whether an agent's store is as that of a module that has just been
/// started: it has a memory, holds no more than one turn's fuel, and runs
/// under the deadline given.
pub open spec fn fresh_store(agent: Agent, budget: nat, deadline: Option<u64>) -> bool {
    &&& agent.sandbox.has_memory()
    &&& agent.sandbox.fuel() <= budget
    &&& agent.sandbox.deadline() == deadline
}

/// Whether an agent is one that a restarted module has taken over: it has
/// the new module's store and shows the name that the new module reports,
/// and keeps everything else, its place, team, score and books among it.
pub open spec fn taken_over(before: Agent, after: Agent) -> bool {
    &&& after == (Agent { sandbox: after.sandbox, name: after.name, ..before })
    &&& is_shown_name(after.name@, MAX_NAME_LENGTH as nat)
    &&& after.name@.len() <= MAX_NAME_LENGTH
}

impl Arena {
    /// Tries to put the agent of a module into the arena at `location`. A
    /// module that is not spawnable is not even started. An agent that
    /// enters has no score, has used no fuel and has not acted yet; its
    /// grant is one turn's fuel.
    pub fn spawn(&mut self, runtime: &Runtime, id: ModuleId, location: TileLocation, bytes: &[u8]) -> (outcome:
        SpawnOutcome)
        requires
            old(self).wf(),
        ensures
            final(self).wf(),
            final(self).budget() == old(self).budget(),
            !old(self).spawnable(id) ==> {
                &&& outcome == SpawnOutcome::NotSpawnable
                &&& final(self).handles() == old(self).handles()
                &&& final(self).agents() == old(self).agents()
            },
            old(self).spawnable(id) ==> {
                ||| {
                    &&& outcome == SpawnOutcome::Spawned
                    &&& final(self).handles() == old(self).handles()
                    &&& final(self).agents().drop_last() == old(self).agents()
                    &&& final(self).agents().len() == old(self).agents().len() + 1
                    &&& newcomer(final(self).agents().last(), id, location)
                    &&& fresh_store(
                        final(self).agents().last(),
                        old(self).budget(),
                        runtime.deadline(),
                    )
                }
                ||| {
                    &&& outcome == SpawnOutcome::Banned
                    &&& exists|reason: String|
                        final(self).handles() == banned_in(old(self).handles(), id, reason)
                    &&& final(self).agents() == old(self).agents()
                }
            },
    {
        if !self.is_spawnable(id) {
            return SpawnOutcome::NotSpawnable;
        }
        let attempt = start_module(runtime, bytes, self.fuel_per_turn);
        let outcome = self.enlist(id, location, attempt);
        proof {
            if attempt is Ok {
                assert(self.agents@.last().fuel.grant() == old(self).budget());
            }
        }
        outcome
    }

    /// Concludes an attempt to restart the module of a live agent after the
    /// module changed. A module that started takes the agent over in place:
    /// the agent keeps its place in the turn order, its location, team and
    /// score, and shows the name that the new module reports. A module that
    /// could not be started is banned, and its agent leaves the arena and
    /// is handed back. Where the module has no agent, nothing changes.
    pub fn hot_swap(&mut self, id: ModuleId, attempt: Result<Recruit, String>) -> (removed: Option<
        Agent,
    >)
        requires
            old(self).wf(),
        ensures
            final(self).wf(),
            final(self).budget() == old(self).budget(),
            !old(self).live(id) ==> {
                &&& removed is None
                &&& final(self).handles() == old(self).handles()
                &&& final(self).agents() == old(self).agents()
            },
            old(self).live(id) ==> match attempt {
                Err(reason) => {
                    &&& removed == agent_of(old(self).agents(), id)
                    &&& final(self).handles() == banned_in(old(self).handles(), id, reason)
                    &&& final(self).agents() == without(old(self).agents(), id)
                },
                Ok(recruit) => {
                    &&& removed is None
                    &&& final(self).handles() == old(self).handles()
                    &&& final(self).agents().len() == old(self).agents().len()
                    &&& forall|i: int|
                        0 <= i < old(self).agents().len() ==> #[trigger] final(self).agents()[i]
                            == if old(self).agents()[i].module == id {
                            Agent {
                                sandbox: recruit.sandbox,
                                name: recruit.name,
                                ..old(self).agents()[i]
                            }
                        } else {
                            old(self).agents()[i]
                        }
                },
            },
    {
        let index = match self.agent_position(id) {
            Some(index) => index,
            None => {
                return None;
            },
        };
        match attempt {
            Err(reason) => self.ban(id, reason),
            Ok(recruit) => {
                let mut agent = self.agents.remove(index);
                agent.sandbox = recruit.sandbox;
                agent.name = recruit.name;
                self.agents.insert(index, agent);
                proof {
                    let before = old(self).agents@;
                    let after = self.agents@;
                    assert(agent_modules(after) =~= agent_modules(before));
                    assert forall|i: int| 0 <= i < after.len() implies ready(
                        self.handles@,
                        (#[trigger] after[i]).module,
                    ) by {
                        assert(after[i].module == before[i].module);
                    }
                    assert forall|i: int| 0 <= i < before.len() implies #[trigger] after[i] == if before[i].module
                        == id {
                        Agent { sandbox: recruit.sandbox, name: recruit.name, ..before[i] }
                    } else {
                        before[i]
                    } by {
                        if i != index {
                            if i < index {
                                assert(agent_modules(before)[i] != agent_modules(before)[index as int]);
                            } else {
                                assert(agent_modules(before)[index as int] != agent_modules(before)[i]);
                            }
                        }
                    }
                }
                None
            },
        }
    }

    /// Reacts to a change of a module's content: a misbehaved module gets a
    /// second chance, and the module of a live agent is restarted and takes
    /// the agent over in place, or is banned where it cannot be started.
    pub fn module_changed(&mut self, runtime: &Runtime, id: ModuleId, bytes: &[u8]) -> (removed:
        Option<Agent>)
        requires
            old(self).wf(),
        ensures
            final(self).wf(),
            final(self).budget() == old(self).budget(),
            !old(self).live(id) ==> {
                &&& removed is None
                &&& final(self).handles() == unbanned_in(old(self).handles(), seq![id])
                &&& final(self).agents() == old(self).agents()
            },
            removed is Some ==> removed == agent_of(old(self).agents(), id) && !final(self).live(id),
            removed is Some ==> final(self).agents() == without(old(self).agents(), id) && exists|
                reason: String,
            |
                final(self).handles() == banned_in(
                    unbanned_in(old(self).handles(), seq![id]),
                    id,
                    reason,
                ),
            old(self).live(id) && removed is None ==> {
                &&& final(self).handles() == unbanned_in(old(self).handles(), seq![id])
                &&& agent_modules(final(self).agents()) == agent_modules(old(self).agents())
                &&& final(self).agents().len() == old(self).agents().len()
                &&& forall|i: int|
                    0 <= i < old(self).agents().len() ==> if (#[trigger] old(self).agents()[i]).module
                        == id {
                        &&& taken_over(old(self).agents()[i], final(self).agents()[i])
                        &&& fresh_store(
                            final(self).agents()[i],
                            old(self).budget(),
                            runtime.deadline(),
                        )
                    } else {
                        final(self).agents()[i] == old(self).agents()[i]
                    }
            },
    {
        let mut changed: Vec<ModuleId> = Vec::new();
        changed.push(id);
        assert(changed@ =~= seq![id]);
        self.unban(&changed);
        if self.agent_position(id).is_none() {
            return None;
        }
        let attempt = start_module(runtime, bytes, self.fuel_per_turn);
        let ghost attempt_failed = attempt is Err;
        let ghost tried = attempt;
        let ghost before = self.agents@;
        let removed = self.hot_swap(id, attempt);
        proof {
            lemma_agent_of_live(before, id);
            if removed is Some {
                assert(attempt_failed);
                lemma_distinct_counts(old(self).agents(), id);
                assert(!self.live(id)) by {
                    lemma_without_drops(old(self).agents(), id);
                }
                let failure = choose|reason: String| tried == Err::<Recruit, String>(reason);
                assert(self.handles() == banned_in(
                    unbanned_in(old(self).handles(), seq![id]),
                    id,
                    failure,
                ));
            } else {
                assert(!attempt_failed);
                assert(agent_modules(self.agents@) =~= agent_modules(before));
                assert forall|i: int| 0 <= i < before.len() implies if (#[trigger] before[i]).module
                    == id {
                    &&& taken_over(before[i], self.agents@[i])
                    &&& fresh_store(self.agents@[i], old(self).budget(), runtime.deadline())
                } else {
                    self.agents@[i] == before[i]
                } by {
                    assert(self.agents@[i] == self.agents@[i]);
                }
            }
        }
        removed
    }

    /// Plans the next spawn: the first module, in list order, that is ready
    /// to spawn and has no agent, and the free place that lies farthest from
    /// every agent. `None` where no module or no place is to be had.
    pub fn plan_spawn(
        &self,
        spawners: &Vec<TileLocation>,
        objects: &Vec<(TileLocation, Object)>,
    ) -> (plan: Option<(ModuleId, TileLocation)>)
        ensures
            plan is Some <==> self.has_spawnable() && free_places(
                spawners@,
                objects@,
                locations_of(self.agents()),
            ).len() > 0,
            plan matches Some((id, place)) ==> {
                let occupied = locations_of(self.agents());
                let places = free_places(spawners@, objects@, occupied);
                &&& self.spawnable(id)
                &&& self.next_in_line(id)
                &&& places.len() > 0
                &&& place == places[best_place(places, occupied)]
            },
    {
        let id = match self.next_spawn() {
            Some(id) => id,
            None => {
                return None;
            },
        };
        let occupied = self.locations();
        let available = available_spawn_locations(spawners, objects, &occupied);
        match choose_spawn_location(&available, &occupied) {
            Some(place) => Some((id, place)),
            None => None,
        }
    }

    /// Where every agent stands, in turn order.
    pub fn locations(&self) -> (locations: Vec<TileLocation>)
        ensures
            locations@ == locations_of(self.agents()),
            locations@.len() == self.agents().len(),
            forall|i: int|
                0 <= i < locations@.len() ==> locations@[i] == (#[trigger] self.agents()[i]).location,
    {
        let mut locations: Vec<TileLocation> = Vec::new();
        let mut i: usize = 0;
        while i < self.agents.len()
            invariant
                i <= self.agents@.len(),
                locations@.len() == i,
                forall|j: int|
                    0 <= j < i ==> locations@[j] == (#[trigger] self.agents@[j]).location,
            decreases self.agents@.len() - i,
        {
            locations.push(self.agents[i].location);
            i = i + 1;
        }
        assert(locations@ =~= locations_of(self.agents@));
        locations
    }

    /// What the agent at `index` is told of the other agents: where each
    /// stands, and its name, team and score. The agent itself is not among
    /// them.
    pub fn rivals_of(&self, index: usize) -> (rivals: Vec<(TileLocation, Enemy)>)
        requires
            index < self.agents().len(),
        ensures
            rivals@ == rivals_seen(self.agents(), index as int),
            rivals@.len() == self.agents().len() - 1,
            forall|k: int|
                0 <= k < rivals@.len() ==> {
                    let other = self.agents()[if k < index {
                        k
                    } else {
                        k + 1
                    }];
                    &&& (#[trigger] rivals@[k]).0 == other.location
                    &&& rivals@[k].1.name == other.name
                    &&& rivals@[k].1.team_name == other.team
                    &&& rivals@[k].1.score == other.score
                },
    {
        let mut rivals: Vec<(TileLocation, Enemy)> = Vec::new();
        let mut i: usize = 0;
        while i < self.agents.len()
            invariant
                i <= self.agents@.len(),
                index < self.agents@.len(),
                rivals@.len() == if i <= index {
                    i as int
                } else {
                    i - 1
                },
                forall|k: int|
                    0 <= k < rivals@.len() ==> {
                        let other = self.agents@[if k < index {
                            k
                        } else {
                            k + 1
                        }];
                        &&& (#[trigger] rivals@[k]).0 == other.location
                        &&& rivals@[k].1.name == other.name
                        &&& rivals@[k].1.team_name == other.team
                        &&& rivals@[k].1.score == other.score
                    },
            decreases self.agents@.len() - i,
        {
            if i != index {
                let other = &self.agents[i];
                rivals.push(
                    (
                        other.location,
                        Enemy {
                            name: other.name.clone(),
                            team_name: other.team.clone(),
                            score: other.score,
                        },
                    ),
                );
            }
            i = i + 1;
        }
        assert(rivals@ =~= rivals_seen(self.agents@, index as int));
        rivals
    }

    /// Concludes the turn of the agent at `index`, given what its module
    /// decided and how much fuel its store holds afterwards.
    ///
    /// A decision is applied: the agent moves where it can, and is told next
    /// turn what became of its action; the fuel reading goes into its books.
    /// A fault of the module bans it and takes its agent out of the arena.
    /// A view that did not fit the module's buffer changes nothing.
    pub fn conclude_turn(
        &mut self,
        index: usize,
        decision: Result<Action, SandboxError>,
        remaining: Option<u64>,
        tiles: &Vec<(TileLocation, Tile)>,
        objects: &Vec<(TileLocation, Object)>,
        occupied: &Vec<TileLocation>,
    ) -> (report: TurnReport)
        requires
            old(self).wf(),
            index < old(self).agents().len(),
        ensures
            final(self).wf(),
            final(self).budget() == old(self).budget(),
            match decision {
                Ok(action) => {
                    let before = old(self).agents()[index as int];
                    let expected = outcome_of(
                        action,
                        before.location,
                        tiles@,
                        objects@,
                        occupied@,
                    );
                    &&& report matches TurnReport::Acted { action: taken, outcome, fuel }
                    &&& taken == action
                    &&& outcome == expected
                    &&& fuel == match remaining {
                        Some(reading) => if before.fuel.accepts(reading) {
                            Ok::<u64, InternalInvariantViolation>(
                                (before.fuel.left() - reading) as u64,
                            )
                        } else {
                            Err::<u64, InternalInvariantViolation>(InternalInvariantViolation)
                        },
                        None => Err::<u64, InternalInvariantViolation>(InternalInvariantViolation),
                    }
                    &&& final(self).handles() == old(self).handles()
                    &&& final(self).agents() == old(self).agents().update(
                        index as int,
                        Agent {
                            location: expected.location,
                            last_result: expected.result,
                            fuel: match remaining {
                                Some(reading) => before.fuel.recorded(reading),
                                None => before.fuel,
                            },
                            ..before
                        },
                    )
                },
                Err(error) => if is_fault(error) {
                    &&& report matches TurnReport::Banned { agent, reason }
                    &&& agent == old(self).agents()[index as int]
                    &&& reason@ == reason_of(error)
                    &&& final(self).handles() == banned_in(
                        old(self).handles(),
                        agent.module,
                        reason,
                    )
                    &&& final(self).agents() == old(self).agents().remove(index as int)
                } else {
                    &&& report is Skipped
                    &&& final(self).handles() == old(self).handles()
                    &&& final(self).agents() == old(self).agents()
                },
            },
    {
        match decision {
            Ok(action) => {
                let mut agent = self.agents.remove(index);
                let outcome = apply_action(action, agent.location, tiles, objects, occupied);
                agent.location = outcome.location;
                agent.last_result = outcome.result;
                let fuel = match remaining {
                    Some(reading) => agent.fuel.record(reading),
                    None => Err(InternalInvariantViolation),
                };
                self.agents.insert(index, agent);
                proof {
                    let before = old(self).agents@;
                    let after = self.agents@;
                    assert(after =~= before.update(index as int, agent));
                    assert(agent_modules(after) =~= agent_modules(before));
                    assert forall|i: int| 0 <= i < after.len() implies ready(
                        self.handles@,
                        (#[trigger] after[i]).module,
                    ) by {
                        assert(after[i].module == before[i].module);
                    }
                }
                TurnReport::Acted { action, outcome, fuel }
            },
            Err(error) => {
                if fault(&error) {
                    let module = self.agents[index].module;
                    let reason = fault_reason(error);
                    proof {
                        lemma_without_removes(self.agents@, index as int);
                        lemma_agent_of_found(self.agents@, index as int);
                    }
                    match self.ban(module, reason.clone()) {
                        Some(agent) => TurnReport::Banned { agent, reason },
                        None => TurnReport::Skipped,
                    }
                } else {
                    TurnReport::Skipped
                }
            },
        }
    }

    /// Makes the agent at `index` ready for its turn, and says what it is
    /// shown: its store is filled to exactly one turn's fuel, its books show
    /// the top-up, and its view holds the tiles within `radius` of where it
    /// stands, with what lies on them and the other agents on them. Nothing
    /// else changes.
    pub fn begin_turn(
        &mut self,
        index: usize,
        tiles: &Vec<(TileLocation, Tile)>,
        objects: &Vec<(TileLocation, Object)>,
        radius: u32,
    ) -> (view: Vec<Sighting>)
        requires
            old(self).wf(),
            index < old(self).agents().len(),
            radius <= i32::MAX,
        ensures
            final(self).wf(),
            final(self).budget() == old(self).budget(),
            final(self).handles() == old(self).handles(),
            final(self).agents() == old(self).agents().update(
                index as int,
                final(self).agents()[index as int],
            ),
            ({
                let before = old(self).agents()[index as int];
                let after = final(self).agents()[index as int];
                &&& after == asked(before, after.sandbox, old(self).budget())
                &&& after.sandbox.fuel() == old(self).budget()
                &&& after.sandbox.has_memory() == before.sandbox.has_memory()
                &&& after.sandbox.deadline() == before.sandbox.deadline()
                &&& sightings_view(view@) == view_of(
                    before.location,
                    tiles@,
                    objects@,
                    rivals_seen(old(self).agents(), index as int),
                    radius,
                )
            }),
    {
        let rivals = self.rivals_of(index);
        let mut agent = self.agents.remove(index);
        let view = surroundings(agent.location, tiles, objects, &rivals, radius);
        let budget = self.fuel_per_turn;
        agent.sandbox.set_fuel(budget);
        agent.fuel.top_up(budget);
        let ghost topped = agent;
        self.agents.insert(index, agent);
        proof {
            let earlier = old(self).agents@;
            let after = self.agents@;
            assert(after =~= earlier.update(index as int, topped));
            assert(agent_modules(after) =~= agent_modules(earlier));
            assert forall|i: int| 0 <= i < after.len() implies ready(
                self.handles@,
                (#[trigger] after[i]).module,
            ) by {
                assert(after[i].module == earlier[i].module);
            }
        }
        view
    }

    /// Lets the agent at `index` take its turn: it is made ready and shown
    /// its surroundings, its module decides, and the turn is concluded.
    ///
    /// What the module decides is up to the module. Whatever it does, the
    /// arena stays sound; the agent's books show the top-up; its store holds
    /// no more than one turn's fuel; and either the agents are who they
    /// were, the one whose turn it was having moved as the rules say, or
    /// that one has been banned and has left.
    pub fn take_turn(
        &mut self,
        index: usize,
        tiles: &Vec<(TileLocation, Tile)>,
        objects: &Vec<(TileLocation, Object)>,
        occupied: &Vec<TileLocation>,
        radius: u32,
    ) -> (report: TurnReport)
        requires
            old(self).wf(),
            index < old(self).agents().len(),
            radius <= i32::MAX,
        ensures
            final(self).wf(),
            final(self).budget() == old(self).budget(),
            match report {
                TurnReport::Banned { agent, reason } => {
                    let before = old(self).agents()[index as int];
                    &&& agent == asked(before, agent.sandbox, old(self).budget())
                    &&& store_after_turn(before.sandbox, agent.sandbox, old(self).budget())
                    &&& final(self).handles() == banned_in(
                        old(self).handles(),
                        agent.module,
                        reason,
                    )
                    &&& agent_modules(final(self).agents()) == agent_modules(
                        old(self).agents(),
                    ).remove(index as int)
                    &&& final(self).agents() == old(self).agents().remove(index as int)
                },
                TurnReport::Skipped => {
                    let before = old(self).agents()[index as int];
                    let after = final(self).agents()[index as int];
                    &&& after == asked(before, after.sandbox, old(self).budget())
                    &&& store_after_turn(before.sandbox, after.sandbox, old(self).budget())
                    &&& final(self).handles() == old(self).handles()
                    &&& agent_modules(final(self).agents()) == agent_modules(old(self).agents())
                    &&& final(self).agents() == old(self).agents().update(index as int, after)
                },
                TurnReport::Acted { action, outcome, fuel } => {
                    let before = old(self).agents()[index as int];
                    let after = final(self).agents()[index as int];
                    let topped = asked(before, after.sandbox, old(self).budget());
                    &&& outcome == outcome_of(
                        action,
                        before.location,
                        tiles@,
                        objects@,
                        occupied@,
                    )
                    &&& fuel == booked(topped.fuel, after.sandbox.fuel())
                    &&& after == (Agent {
                        location: outcome.location,
                        last_result: outcome.result,
                        fuel: topped.fuel.recorded(after.sandbox.fuel()),
                        ..topped
                    })
                    &&& store_after_turn(before.sandbox, after.sandbox, old(self).budget())
                    &&& final(self).handles() == old(self).handles()
                    &&& agent_modules(final(self).agents()) == agent_modules(old(self).agents())
                    &&& final(self).agents() == old(self).agents().update(index as int, after)
                },
            },
    {
        let view = self.begin_turn(index, tiles, objects, radius);
        let ghost budget = self.budget();
        let mut agent = self.agents.remove(index);
        let decision = wasm_act(&mut agent.sandbox, &view, agent.last_result);
        let remaining = agent.sandbox.fuel_left();
        let ghost before = old(self).agents@[index as int];
        let ghost topped = agent;
        assert(topped == asked(before, agent.sandbox, budget));
        self.agents.insert(index, agent);
        proof {
            let earlier = old(self).agents@;
            let after = self.agents@;
            assert(after =~= earlier.update(index as int, topped));
            assert(agent_modules(after) =~= agent_modules(earlier));
            assert forall|i: int| 0 <= i < after.len() implies ready(
                self.handles@,
                (#[trigger] after[i]).module,
            ) by {
                assert(after[i].module == earlier[i].module);
            }
        }
        let ghost middle = self.agents@;
        let report = self.conclude_turn(index, decision, remaining, tiles, objects, occupied);
        proof {
            assert(agent_modules(middle.remove(index as int)) =~= agent_modules(middle).remove(
                index as int,
            ));
            assert(middle.remove(index as int) =~= old(self).agents@.remove(index as int));
            if decision is Ok {
                assert(agent_modules(self.agents@) =~= agent_modules(middle));
                assert(self.agents@ =~= old(self).agents@.update(
                    index as int,
                    self.agents@[index as int],
                ));
            }
        }
        report
    }

    /// Lets every agent take its turn, in turn order, one after the other.
    /// Moves are judged by where the agents stood when the round began.
    /// One agent's fault ends that agent's part in the round and nobody
    /// else's.
    ///
    /// Report `k` is of the agent that stood at place `k` when the round
    /// began. The agents that were not banned stay in their order, each as
    /// its report says; every banned module has lost its agent and has its
    /// handle marked; all other handles are as they were.
    #[verifier::rlimit(60)]
    pub fn run_turns(
        &mut self,
        tiles: &Vec<(TileLocation, Tile)>,
        objects: &Vec<(TileLocation, Object)>,
        radius: u32,
    ) -> (reports: Vec<TurnReport>)
        requires
            old(self).wf(),
            radius <= i32::MAX,
        ensures
            final(self).wf(),
            final(self).budget() == old(self).budget(),
            reports@.len() == old(self).agents().len(),
            final(self).agents().len() == standing(reports@),
            agent_modules(final(self).agents()) == survivors(
                agent_modules(old(self).agents()),
                reports@,
            ),
            forall|k: int|
                0 <= k < reports@.len() ==> #[trigger] round_told(
                    reports@,
                    k,
                    old(self).agents(),
                    final(self).agents(),
                    final(self).handles(),
                    old(self).budget(),
                    tiles@,
                    objects@,
                ),
            final(self).handles() == handles_after(old(self).handles(), reports@),
            forall|i: int|
                0 <= i < old(self).handles().len() && !banned_by(
                    reports@,
                    (#[trigger] old(self).handles()[i]).id(),
                ) ==> final(self).handles()[i] == old(self).handles()[i],
            final(self).agents().len() <= old(self).agents().len(),
            final(self).handles().len() == old(self).handles().len(),
            handle_ids(final(self).handles()) == handle_ids(old(self).handles()),
            forall|j: int|
                0 <= j < final(self).agents().len() ==> agent_modules(old(self).agents()).contains(
                    (#[trigger] final(self).agents()[j]).module,
                ),
    {
        let occupied = self.locations();
        let ghost start = self.agents@;
        let ghost start_handles = self.handles();
        let ghost budget = self.budget();
        proof {
            assert(occupied@ =~= locations_of(start));
            assert forall|j: int| 0 <= j < self.agents@.len() implies agent_modules(
                start,
            ).contains((#[trigger] self.agents@[j]).module) by {
                assert(agent_modules(start)[j] == self.agents@[j].module);
            }
            assert(agent_modules(self.agents@).take(0) =~= Seq::<ModuleId>::empty());
        }
        let mut reports: Vec<TurnReport> = Vec::new();
        let mut index: usize = 0;
        while index < self.agents.len()
            invariant
                self.wf(),
                radius <= i32::MAX,
                start == old(self).agents(),
                start_handles == old(self).handles(),
                budget == old(self).budget(),
                occupied@ == locations_of(start),
                index <= self.agents@.len(),
                reports@.len() <= start.len(),
                index == standing(reports@),
                index <= reports@.len(),
                self.agents@.len() == index + start.len() - reports@.len(),
                forall|j: int|
                    index <= j < self.agents@.len() ==> #[trigger] self.agents@[j] == start[j
                        - index + reports@.len()],
                forall|k: int|
                    0 <= k < reports@.len() && !((#[trigger] reports@[k]) is Banned) ==> standing(
                        reports@.take(k),
                    ) < index,
                forall|k: int|
                    0 <= k < reports@.len() ==> #[trigger] round_told(
                        reports@,
                        k,
                        start,
                        self.agents@,
                        self.handles(),
                        budget,
                        tiles@,
                        objects@,
                    ),
                agent_modules(self.agents@).take(index as int) == survivors(
                    agent_modules(start),
                    reports@,
                ),
                self.handles() == handles_after(start_handles, reports@),
                forall|i: int|
                    0 <= i < start_handles.len() && !banned_by(
                        reports@,
                        (#[trigger] start_handles[i]).id(),
                    ) ==> self.handles()[i] == start_handles[i],
                self.budget() == old(self).budget(),
                self.handles().len() == old(self).handles().len(),
                handle_ids(self.handles()) == handle_ids(old(self).handles()),
                forall|j: int|
                    0 <= j < self.agents@.len() ==> agent_modules(old(self).agents()).contains(
                        (#[trigger] self.agents@[j]).module,
                    ),
            decreases self.agents@.len() - index,
        {
            let ghost before = self.agents@;
            let ghost handles_before = self.handles();
            let ghost told = reports@;
            let report = self.take_turn(index, tiles, objects, &occupied, radius);
            let banned = match &report {
                TurnReport::Banned { .. } => true,
                _ => false,
            };
            reports.push(report);
            proof {
                let n = told.len() as int;
                let now = self.agents@;
                assert(before[index as int] == start[n]);
                assert(agent_modules(before).len() == before.len());
                assert(agent_modules(now).len() == now.len());
                assert(reports@.drop_last() =~= told);
                assert(reports@.take(n) =~= told);
                assert(reports@.last() == report);
                if banned {
                    assert(agent_modules(before).remove(index as int).len() == before.len() - 1);
                }
                assert(handle_ids(self.handles()) =~= handle_ids(handles_before));
                assert forall|j: int| 0 <= j < now.len() implies agent_modules(
                    old(self).agents(),
                ).contains((#[trigger] now[j]).module) by {
                    let source = if banned && j >= index {
                        j + 1
                    } else {
                        j
                    };
                    assert(agent_modules(now)[j] == agent_modules(before)[source]);
                    assert(before[source].module == now[j].module);
                }
                assert forall|k: int| 0 <= k <= n implies #[trigger] reports@.take(k)
                    == told.take(k) by {
                    assert(reports@.take(k) =~= told.take(k));
                }
                lemma_round_goes_on(
                    told,
                    report,
                    start,
                    before,
                    now,
                    handles_before,
                    self.handles(),
                    index as int,
                    budget,
                    tiles@,
                    objects@,
                );
                // What the turn just taken made of its agent.
                if banned {
                    let module = start[n].module;
                    assert(agent_modules(before)[index as int] == module);
                    assert(!agent_modules(now).contains(module)) by {
                        if agent_modules(now).contains(module) {
                            let w = choose|w: int|
                                0 <= w < now.len() && agent_modules(now)[w] == module;
                            let source = if w >= index {
                                w + 1
                            } else {
                                w
                            };
                            assert(agent_modules(before)[source] == module);
                        }
                    }
                    let h = choose|h: int|
                        0 <= h < handles_before.len() && #[trigger] handles_before[h]
                            == PlayerHandle::ReadyToSpawn(module);
                    assert(self.handles()[h] == PlayerHandle::Misbehaved(
                        module,
                        report->reason,
                    ));
                } else {
                    assert(now[index as int].module == start[n].module);
                    assert(agent_modules(now).take(index + 1) =~= agent_modules(before).take(
                        index as int,
                    ).push(start[n].module));
                }
                if banned {
                    assert(agent_modules(now).take(index as int) =~= agent_modules(before).take(
                        index as int,
                    ));
                }
                assert(round_told(
                    reports@,
                    n,
                    start,
                    now,
                    self.handles(),
                    budget,
                    tiles@,
                    objects@,
                ));
                assert forall|i: int|
                    0 <= i < start_handles.len() && !banned_by(
                        reports@,
                        (#[trigger] start_handles[i]).id(),
                    ) implies self.handles()[i] == start_handles[i] by {
                    if banned_by(told, start_handles[i].id()) {
                        let w = choose|w: int|
                            0 <= w < told.len() && (#[trigger] told[w]) is Banned
                                && told[w]->agent.module == start_handles[i].id();
                        assert(reports@[w] == told[w]);
                    }
                    if banned {
                        assert(reports@[n] is Banned);
                        assert(handle_ids(handles_before)[i] == handle_ids(start_handles)[i]);
                    }
                }
            }
            if !banned {
                index = index + 1;
            }
        }
        proof {
            assert(agent_modules(self.agents@).take(index as int) =~= agent_modules(self.agents@));
        }
        reports
    }
}

/// What one more turn leaves of what the reports so far told: the agents
/// in front of the one whose turn it was stand as they stood, a module
/// that has lost its agent gets none back, and a handle that was marked
/// stays marked.
proof fn lemma_round_goes_on(
    told: Seq<TurnReport>,
    report: TurnReport,
    start: Seq<Agent>,
    before: Seq<Agent>,
    now: Seq<Agent>,
    handles_before: Seq<PlayerHandle>,
    handles_now: Seq<PlayerHandle>,
    index: int,
    budget: nat,
    tiles: Seq<(TileLocation, Tile)>,
    objects: Seq<(TileLocation, Object)>,
)
    requires
        0 <= index < before.len(),
        distinct(handle_ids(handles_before)),
        forall|k: int|
            0 <= k < told.len() && !((#[trigger] told[k]) is Banned) ==> standing(told.take(k))
                < index,
        forall|k: int|
            0 <= k < told.len() ==> #[trigger] round_told(
                told,
                k,
                start,
                before,
                handles_before,
                budget,
                tiles,
                objects,
            ),
        match report {
            TurnReport::Banned { agent, reason } => {
                &&& now == before.remove(index)
                &&& handles_now == banned_in(handles_before, agent.module, reason)
                &&& agent.module == before[index].module
            },
            _ => {
                &&& now.len() == before.len()
                &&& now == before.update(index, now[index])
                &&& now[index].module == before[index].module
                &&& handles_now == handles_before
            },
        },
    ensures
        forall|k: int|
            0 <= k < told.len() ==> #[trigger] round_told(
                told.push(report),
                k,
                start,
                now,
                handles_now,
                budget,
                tiles,
                objects,
            ),
{
    let all = told.push(report);
    assert forall|k: int| 0 <= k < told.len() implies #[trigger] round_told(
        all,
        k,
        start,
        now,
        handles_now,
        budget,
        tiles,
        objects,
    ) by {
        assert(round_told(told, k, start, before, handles_before, budget, tiles, objects));
        assert(all.take(k) =~= told.take(k));
        assert(all[k] == told[k]);
        let place = standing(told.take(k)) as int;
        match told[k] {
            TurnReport::Banned { agent, reason } => {
                let module = start[k].module;
                if agent_modules(now).contains(module) {
                    let w = choose|w: int| 0 <= w < now.len() && agent_modules(now)[w] == module;
                    let source = if report is Banned && w >= index {
                        w + 1
                    } else {
                        w
                    };
                    assert(agent_modules(before)[source] == module);
                }
                let h = choose|h: int|
                    0 <= h < handles_before.len() && #[trigger] handles_before[h]
                        == PlayerHandle::Misbehaved(module, reason);
                assert(handles_now[h] == PlayerHandle::Misbehaved(module, reason));
            },
            _ => {
                assert(place < index);
                assert(now[place] == before[place]);
            },
        }
    }
}

/// A module with an agent has an agent to be found.
pub proof fn lemma_agent_of_live(agents: Seq<Agent>, id: ModuleId)
    requires
        agent_modules(agents).contains(id),
    ensures
        agent_of(agents, id) is Some,
    decreases agents.len(),
{
    if agents.len() > 0 && agents[0].module != id {
        let k = choose|k: int| 0 <= k < agents.len() && agent_modules(agents)[k] == id;
        assert(agent_modules(agents.drop_first())[k - 1] == id);
        lemma_agent_of_live(agents.drop_first(), id);
    }
}

/// After a module's agent has been taken away, the module has none.
pub proof fn lemma_without_drops(agents: Seq<Agent>, id: ModuleId)
    ensures
        !agent_modules(without(agents, id)).contains(id),
        without(agents, id).len() <= agents.len(),
    decreases agents.len(),
{
    if agents.len() > 0 {
        lemma_without_drops(agents.drop_last(), id);
        let result = without(agents, id);
        if agent_modules(result).contains(id) {
            let k = choose|k: int| 0 <= k < result.len() && agent_modules(result)[k] == id;
            let front = without(agents.drop_last(), id);
            if k < front.len() {
                assert(agent_modules(front)[k] == id);
            }
        }
    }
}

} // verus!
