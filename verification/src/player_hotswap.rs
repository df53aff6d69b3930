//! The list of module handles: which modules there are, and which of them
//! may be spawned.
//!
//! A handle is `ReadyToSpawn`, `Misbehaved` after a fault until its module
//! changes, or `Respawning` for a number of world ticks after its agent
//! died. The list names every module once and holds at most
//! [`MAX_PLAYERS`] handles.

use crate::world::Ticks;
use vstd::prelude::*;

verus! {

/// What tells one module from another.
pub type ModuleId = u64;

/// How many handles the list holds at most. Further modules are not admitted
/// until slots free up.
pub const MAX_PLAYERS: usize = 12;

/// How many world ticks pass between an agent's death and its module being
/// ready to spawn again.
pub const RESPAWN_TICKS: u32 = 3;

/// Handle to a module, classified by whether or not it misbehaved.
#[derive(Debug, PartialEq, Eq)]
pub enum PlayerHandle {
    ReadyToSpawn(ModuleId),
    Misbehaved(ModuleId, String),
    Respawning(ModuleId, Ticks),
}

/// The list of handles, kept in step with the modules that are present.
pub struct PlayerHandles {
    handles: Vec<PlayerHandle>,
}

impl Clone for PlayerHandle {
    fn clone(&self) -> (copy: PlayerHandle)
        ensures
            copy == *self,
    {
        match self {
            PlayerHandle::ReadyToSpawn(id) => PlayerHandle::ReadyToSpawn(*id),
            PlayerHandle::Misbehaved(id, reason) => PlayerHandle::Misbehaved(*id, reason.clone()),
            PlayerHandle::Respawning(id, ticks) => PlayerHandle::Respawning(*id, *ticks),
        }
    }
}

impl PlayerHandle {
    /// The module that the handle stands for.
    pub open spec fn id(self) -> ModuleId {
        match self {
            PlayerHandle::ReadyToSpawn(id) => id,
            PlayerHandle::Misbehaved(id, _) => id,
            PlayerHandle::Respawning(id, _) => id,
        }
    }

    /// The handle after a ban: misbehaved for the given reason, unless it
    /// was misbehaved already, in which case nothing changes.
    pub open spec fn banned(self, reason: String) -> PlayerHandle {
        if self is Misbehaved {
            self
        } else {
            PlayerHandle::Misbehaved(self.id(), reason)
        }
    }

    /// The handle after its module changed: a misbehaved module gets a
    /// second chance.
    pub open spec fn unbanned(self) -> PlayerHandle {
        if self is Misbehaved {
            PlayerHandle::ReadyToSpawn(self.id())
        } else {
            self
        }
    }

    /// The handle of a module whose agent just died, with `ticks` world
    /// ticks to wait.
    pub open spec fn respawning(self, ticks: u32) -> PlayerHandle {
        if ticks == 0 {
            PlayerHandle::ReadyToSpawn(self.id())
        } else {
            PlayerHandle::Respawning(self.id(), Ticks(ticks))
        }
    }

    /// The handle after one world tick.
    pub open spec fn ticked(self) -> PlayerHandle {
        match self {
            PlayerHandle::Respawning(id, Ticks(ticks)) => if ticks <= 1 {
                PlayerHandle::ReadyToSpawn(id)
            } else {
                PlayerHandle::Respawning(id, Ticks((ticks - 1) as u32))
            },
            _ => self,
        }
    }

    /// The handle after a number of world ticks.
    pub open spec fn ticked_times(self, ticks: nat) -> PlayerHandle
        decreases ticks,
    {
        if ticks == 0 {
            self
        } else {
            self.ticked_times((ticks - 1) as nat).ticked()
        }
    }

    /// Whether the module may be given an agent, as far as its handle goes.
    pub fn is_ready_to_spawn(&self) -> (ready: bool)
        ensures
            ready == (*self is ReadyToSpawn),
    {
        match self {
            PlayerHandle::ReadyToSpawn(_) => true,
            _ => false,
        }
    }

    /// The module that the handle stands for.
    pub fn inner(&self) -> (id: ModuleId)
        ensures
            id == self.id(),
    {
        match self {
            PlayerHandle::ReadyToSpawn(id) => *id,
            PlayerHandle::Misbehaved(id, _) => *id,
            PlayerHandle::Respawning(id, _) => *id,
        }
    }

    /// Bans the module: its handle is misbehaved from now on. Banning a
    /// handle that is misbehaved already changes nothing.
    pub fn invalidate(&mut self, reason: String)
        ensures
            *final(self) == old(self).banned(reason),
    {
        let id = self.inner();
        match self {
            PlayerHandle::Misbehaved(_, _) => {},
            _ => {
                *self = PlayerHandle::Misbehaved(id, reason);
            },
        }
    }

    /// Lets one world tick pass.
    pub fn tick(&mut self)
        ensures
            *final(self) == old(self).ticked(),
    {
        let next = match self {
            PlayerHandle::Respawning(id, Ticks(ticks)) => {
                if *ticks <= 1 {
                    Some(PlayerHandle::ReadyToSpawn(*id))
                } else {
                    Some(PlayerHandle::Respawning(*id, Ticks(*ticks - 1)))
                }
            },
            _ => None,
        };
        match next {
            Some(next) => {
                *self = next;
            },
            None => {},
        }
    }
}

/// Banning twice is banning once: the second ban changes nothing, whatever
/// its reason.
pub proof fn law_ban_idempotent(handle: PlayerHandle, first: String, second: String)
    ensures
        handle.banned(first).banned(second) == handle.banned(first),
        handle.banned(first) is Misbehaved,
        handle.banned(first).id() == handle.id(),
{
}

/// A handle that starts respawning with `ticks` ticks to wait is still
/// respawning after every smaller number of world ticks, and ready to spawn
/// after exactly `ticks` of them.
pub proof fn law_respawn_timing(handle: PlayerHandle, ticks: u32, elapsed: nat)
    requires
        elapsed <= ticks,
    ensures
        elapsed < ticks ==> handle.respawning(ticks).ticked_times(elapsed)
            == PlayerHandle::Respawning(handle.id(), Ticks((ticks - elapsed) as u32)),
        elapsed == ticks ==> handle.respawning(ticks).ticked_times(elapsed)
            == PlayerHandle::ReadyToSpawn(handle.id()),
    decreases elapsed,
{
    if elapsed > 0 {
        law_respawn_timing(handle, ticks, (elapsed - 1) as nat);
    }
}

/// The modules that a list of handles names, in the order of the list.
pub open spec fn handle_ids(handles: Seq<PlayerHandle>) -> Seq<ModuleId> {
    Seq::new(handles.len(), |i: int| handles[i].id())
}

/// No module is named twice.
pub open spec fn distinct(ids: Seq<ModuleId>) -> bool {
    forall|i: int, j: int| 0 <= i < j < ids.len() ==> ids[i] != ids[j]
}

/// The handles whose modules are still present, in their old order and
/// state.
pub open spec fn kept(handles: Seq<PlayerHandle>, present: Seq<ModuleId>) -> Seq<PlayerHandle>
    decreases handles.len(),
{
    if handles.len() == 0 {
        Seq::empty()
    } else {
        let front = kept(handles.drop_last(), present);
        if present.contains(handles.last().id()) {
            front.push(handles.last())
        } else {
            front
        }
    }
}

/// The list after the candidates have asked for admission one by one: a
/// candidate gets a fresh handle where the list does not name it yet and has
/// room left.
pub open spec fn admitted(base: Seq<PlayerHandle>, candidates: Seq<ModuleId>, limit: nat) -> Seq<
    PlayerHandle,
>
    decreases candidates.len(),
{
    if candidates.len() == 0 {
        base
    } else {
        let before = admitted(base, candidates.drop_last(), limit);
        let id = candidates.last();
        if before.len() < limit && !handle_ids(before).contains(id) {
            before.push(PlayerHandle::ReadyToSpawn(id))
        } else {
            before
        }
    }
}

/// The list brought in step with the modules that are present: handles of
/// vanished modules go, the others stay as they are, and modules that are
/// new get a fresh handle behind them as long as there is room.
pub open spec fn reconciled(handles: Seq<PlayerHandle>, present: Seq<ModuleId>) -> Seq<
    PlayerHandle,
> {
    admitted(kept(handles, present), present, MAX_PLAYERS as nat)
}

/// The list after the modules in `changed` have changed.
pub open spec fn unbanned_in(handles: Seq<PlayerHandle>, changed: Seq<ModuleId>) -> Seq<
    PlayerHandle,
> {
    Seq::new(
        handles.len(),
        |i: int|
            if changed.contains(handles[i].id()) {
                handles[i].unbanned()
            } else {
                handles[i]
            },
    )
}

/// The list after a module has been banned.
pub open spec fn banned_in(handles: Seq<PlayerHandle>, id: ModuleId, reason: String) -> Seq<
    PlayerHandle,
> {
    Seq::new(
        handles.len(),
        |i: int|
            if handles[i].id() == id {
                handles[i].banned(reason)
            } else {
                handles[i]
            },
    )
}

/// The list after the agent of a module has died.
pub open spec fn killed_in(handles: Seq<PlayerHandle>, id: ModuleId) -> Seq<PlayerHandle> {
    Seq::new(
        handles.len(),
        |i: int|
            if handles[i].id() == id {
                handles[i].respawning(RESPAWN_TICKS)
            } else {
                handles[i]
            },
    )
}

/// The list after one world tick.
pub open spec fn ticked_all(handles: Seq<PlayerHandle>) -> Seq<PlayerHandle> {
    Seq::new(handles.len(), |i: int| handles[i].ticked())
}

/// What stays of a list names only modules that the list named and that are
/// present, and names none twice if the list named none twice.
pub proof fn lemma_kept(handles: Seq<PlayerHandle>, present: Seq<ModuleId>)
    ensures
        kept(handles, present).len() <= handles.len(),
        forall|i: int|
            0 <= i < kept(handles, present).len() ==> handles.contains(
                #[trigger] kept(handles, present)[i],
            ) && present.contains(kept(handles, present)[i].id()),
        forall|i: int|
            0 <= i < handles.len() && present.contains((#[trigger] handles[i]).id()) ==> kept(
                handles,
                present,
            ).contains(handles[i]),
        distinct(handle_ids(handles)) ==> distinct(handle_ids(kept(handles, present))),
    decreases handles.len(),
{
    if handles.len() > 0 {
        let shorter = handles.drop_last();
        let front = kept(shorter, present);
        let whole = kept(handles, present);
        lemma_kept(shorter, present);
        assert forall|i: int| 0 <= i < whole.len() implies handles.contains(#[trigger] whole[i])
            && present.contains(whole[i].id()) by {
            if i < front.len() {
                assert(whole[i] == front[i]);
                let k = choose|k: int| 0 <= k < shorter.len() && shorter[k] == front[i];
                assert(handles[k] == whole[i]);
            } else {
                assert(whole[i] == handles.last());
                assert(handles[handles.len() - 1] == whole[i]);
            }
        }
        assert forall|i: int|
            0 <= i < handles.len() && present.contains(
                (#[trigger] handles[i]).id(),
            ) implies whole.contains(handles[i]) by {
            if i < shorter.len() {
                assert(shorter[i] == handles[i]);
                let k = choose|k: int| 0 <= k < front.len() && front[k] == shorter[i];
                assert(whole[k] == handles[i]);
            } else {
                assert(whole[whole.len() - 1] == handles[i]);
            }
        }
        if distinct(handle_ids(handles)) {
            assert(distinct(handle_ids(shorter))) by {
                assert forall|i: int, j: int| 0 <= i < j < shorter.len() implies handle_ids(
                    shorter,
                )[i] != handle_ids(shorter)[j] by {
                    assert(handle_ids(handles)[i] != handle_ids(handles)[j]);
                }
            }
            assert forall|i: int, j: int| 0 <= i < j < whole.len() implies handle_ids(whole)[i]
                != handle_ids(whole)[j] by {
                if j < front.len() {
                    assert(handle_ids(front)[i] != handle_ids(front)[j]);
                } else {
                    let k = choose|k: int| 0 <= k < shorter.len() && shorter[k] == front[i];
                    assert(handle_ids(handles)[k] != handle_ids(handles)[handles.len() - 1]);
                }
            }
        }
    }
}

/// Admission keeps what was there, adds ready handles only, never names a
/// module twice, and never fills the list beyond the limit.
pub proof fn lemma_admitted(base: Seq<PlayerHandle>, candidates: Seq<ModuleId>, limit: nat)
    ensures
        base.len() <= admitted(base, candidates, limit).len(),
        base.len() <= limit ==> admitted(base, candidates, limit).len() <= limit,
        forall|i: int| 0 <= i < base.len() ==> admitted(base, candidates, limit)[i] == base[i],
        forall|i: int|
            base.len() <= i < admitted(base, candidates, limit).len() ==> (#[trigger] admitted(
                base,
                candidates,
                limit,
            )[i]) is ReadyToSpawn && candidates.contains(admitted(base, candidates, limit)[i].id()),
        distinct(handle_ids(base)) ==> distinct(handle_ids(admitted(base, candidates, limit))),
    decreases candidates.len(),
{
    if candidates.len() > 0 {
        let shorter = candidates.drop_last();
        let before = admitted(base, shorter, limit);
        let after = admitted(base, candidates, limit);
        lemma_admitted(base, shorter, limit);
        assert forall|i: int| base.len() <= i < after.len() implies (#[trigger] after[i])
            is ReadyToSpawn && candidates.contains(after[i].id()) by {
            if i < before.len() {
                assert(after[i] == before[i]);
                let k = choose|k: int| 0 <= k < shorter.len() && shorter[k] == before[i].id();
                assert(candidates[k] == after[i].id());
            } else {
                assert(candidates[candidates.len() - 1] == after[i].id());
            }
        }
        if distinct(handle_ids(base)) {
            assert forall|i: int, j: int| 0 <= i < j < after.len() implies handle_ids(after)[i]
                != handle_ids(after)[j] by {
                if j < before.len() {
                    assert(handle_ids(before)[i] != handle_ids(before)[j]);
                } else {
                    assert(handle_ids(before)[i] == before[i].id());
                }
            }
        }
    }
}

/// Whether a list of modules names a module.
pub fn contains_id(ids: &Vec<ModuleId>, id: ModuleId) -> (found: bool)
    ensures
        found == ids@.contains(id),
{
    let mut i: usize = 0;
    while i < ids.len()
        invariant
            i <= ids@.len(),
            forall|j: int| 0 <= j < i ==> ids@[j] != id,
        decreases ids@.len() - i,
    {
        if ids[i] == id {
            return true;
        }
        i = i + 1;
    }
    false
}

impl View for PlayerHandles {
    type V = Seq<PlayerHandle>;

    closed spec fn view(&self) -> Seq<PlayerHandle> {
        self.handles@
    }
}

impl PlayerHandles {
    /// The list names no module twice and holds no more handles than it may.
    pub open spec fn wf(&self) -> bool {
        &&& distinct(handle_ids(self@))
        &&& self@.len() <= MAX_PLAYERS
    }

    /// An empty list.
    pub fn new() -> (list: PlayerHandles)
        ensures
            list.wf(),
            list@.len() == 0,
    {
        PlayerHandles { handles: Vec::new() }
    }

    /// How many handles there are.
    pub fn len(&self) -> (count: usize)
        ensures
            count == self@.len(),
    {
        self.handles.len()
    }

    /// The handle at a position of the list.
    pub fn get(&self, index: usize) -> (handle: &PlayerHandle)
        requires
            index < self@.len(),
        ensures
            *handle == self@[index as int],
    {
        &self.handles[index]
    }

    /// Where the handle of a module stands; `None` where the list does not
    /// name the module.
    pub fn position(&self, id: ModuleId) -> (position: Option<usize>)
        ensures
            match position {
                Some(index) => index < self@.len() && self@[index as int].id() == id && forall|
                    j: int,
                | 0 <= j < index ==> (#[trigger] self@[j]).id() != id,
                None => forall|j: int| 0 <= j < self@.len() ==> (#[trigger] self@[j]).id() != id,
            },
    {
        let mut i: usize = 0;
        while i < self.handles.len()
            invariant
                i <= self.handles@.len(),
                forall|j: int| 0 <= j < i ==> (#[trigger] self.handles@[j]).id() != id,
            decreases self.handles@.len() - i,
        {
            if self.handles[i].inner() == id {
                return Some(i);
            }
            i = i + 1;
        }
        None
    }

    /// Brings the list in step with the modules that are present.
    pub fn reconcile(&mut self, present: &Vec<ModuleId>)
        requires
            old(self).wf(),
        ensures
            final(self).wf(),
            final(self)@ == reconciled(old(self)@, present@),
    {
        let mut next: Vec<PlayerHandle> = Vec::new();
        let mut i: usize = 0;
        while i < self.handles.len()
            invariant
                i <= self.handles@.len(),
                self.handles@ == old(self).handles@,
                next@ == kept(self.handles@.take(i as int), present@),
            decreases self.handles@.len() - i,
        {
            proof {
                assert(self.handles@.take(i + 1).drop_last() =~= self.handles@.take(i as int));
            }
            if contains_id(present, self.handles[i].inner()) {
                next.push(self.handles[i].clone());
            }
            i = i + 1;
        }
        proof {
            assert(self.handles@.take(i as int) =~= self.handles@);
            lemma_kept(self.handles@, present@);
        }
        let ghost base = next@;
        let mut k: usize = 0;
        while k < present.len()
            invariant
                k <= present@.len(),
                base.len() <= MAX_PLAYERS,
                next@ == admitted(base, present@.take(k as int), MAX_PLAYERS as nat),
            decreases present@.len() - k,
        {
            proof {
                assert(present@.take(k + 1).drop_last() =~= present@.take(k as int));
                lemma_admitted(base, present@.take(k as int), MAX_PLAYERS as nat);
            }
            let id = present[k];
            if next.len() < MAX_PLAYERS && !PlayerHandles::names(&next, id) {
                next.push(PlayerHandle::ReadyToSpawn(id));
            }
            k = k + 1;
        }
        proof {
            assert(present@.take(k as int) =~= present@);
            lemma_admitted(base, present@, MAX_PLAYERS as nat);
        }
        self.handles = next;
    }

    /// Whether a list of handles names a module.
    fn names(handles: &Vec<PlayerHandle>, id: ModuleId) -> (found: bool)
        ensures
            found == handle_ids(handles@).contains(id),
    {
        let mut i: usize = 0;
        while i < handles.len()
            invariant
                i <= handles@.len(),
                forall|j: int| 0 <= j < i ==> handle_ids(handles@)[j] != id,
            decreases handles@.len() - i,
        {
            if handles[i].inner() == id {
                assert(handle_ids(handles@)[i as int] == id);
                return true;
            }
            i = i + 1;
        }
        false
    }

    /// Gives misbehaved modules that have changed a second chance.
    pub fn unban(&mut self, changed: &Vec<ModuleId>)
        ensures
            final(self)@ == unbanned_in(old(self)@, changed@),
            old(self).wf() ==> final(self).wf(),
    {
        let mut i: usize = 0;
        while i < self.handles.len()
            invariant
                i <= self.handles@.len(),
                self.handles@.len() == old(self).handles@.len(),
                forall|j: int|
                    0 <= j < i ==> self.handles@[j] == unbanned_in(old(self).handles@, changed@)[j],
                forall|j: int|
                    i <= j < self.handles@.len() ==> self.handles@[j] == old(self).handles@[j],
            decreases self.handles@.len() - i,
        {
            let id = self.handles[i].inner();
            if !self.handles[i].is_ready_to_spawn() && contains_id(changed, id) {
                let unbanned = match &self.handles[i] {
                    PlayerHandle::Misbehaved(_, _) => Some(PlayerHandle::ReadyToSpawn(id)),
                    _ => None,
                };
                match unbanned {
                    Some(handle) => {
                        self.handles.set(i, handle);
                    },
                    None => {},
                }
            }
            i = i + 1;
        }
        proof {
            assert(self.handles@ =~= unbanned_in(old(self).handles@, changed@));
            assert(handle_ids(self@) =~= handle_ids(old(self)@));
        }
    }

    /// Bans a module, and says whether the list names it. Banning a module
    /// that is banned already changes nothing.
    pub fn ban(&mut self, id: ModuleId, reason: String) -> (named: bool)
        requires
            old(self).wf(),
        ensures
            final(self).wf(),
            final(self)@ == banned_in(old(self)@, id, reason),
            named == handle_ids(old(self)@).contains(id),
    {
        match self.position(id) {
            Some(index) => {
                let mut handle = self.handles[index].clone();
                handle.invalidate(reason);
                self.handles.set(index, handle);
                proof {
                    assert(handle_ids(old(self)@)[index as int] == id);
                    assert forall|j: int| 0 <= j < self@.len() implies self@[j] == banned_in(
                        old(self)@,
                        id,
                        reason,
                    )[j] by {
                        if j != index {
                            assert(handle_ids(old(self)@)[j] != handle_ids(old(self)@)[index as int]);
                        }
                    }
                    assert(self@ =~= banned_in(old(self)@, id, reason));
                    assert(handle_ids(self@) =~= handle_ids(old(self)@));
                }
                true
            },
            None => {
                proof {
                    assert(self@ =~= banned_in(old(self)@, id, reason));
                    assert forall|j: int| 0 <= j < self@.len() implies handle_ids(old(self)@)[j]
                        != id by {
                        assert(old(self)@[j].id() != id);
                    }
                }
                false
            },
        }
    }

    /// Starts the wait of a module whose agent has died, and says whether
    /// the list names the module.
    pub fn kill(&mut self, id: ModuleId) -> (named: bool)
        requires
            old(self).wf(),
        ensures
            final(self).wf(),
            final(self)@ == killed_in(old(self)@, id),
            named == handle_ids(old(self)@).contains(id),
    {
        match self.position(id) {
            Some(index) => {
                self.handles.set(index, PlayerHandle::Respawning(id, Ticks(RESPAWN_TICKS)));
                proof {
                    assert(handle_ids(old(self)@)[index as int] == id);
                    assert forall|j: int| 0 <= j < self@.len() implies self@[j] == killed_in(
                        old(self)@,
                        id,
                    )[j] by {
                        if j != index {
                            assert(handle_ids(old(self)@)[j] != handle_ids(old(self)@)[index as int]);
                        }
                    }
                    assert(self@ =~= killed_in(old(self)@, id));
                    assert(handle_ids(self@) =~= handle_ids(old(self)@));
                }
                true
            },
            None => {
                proof {
                    assert(self@ =~= killed_in(old(self)@, id));
                    assert forall|j: int| 0 <= j < self@.len() implies handle_ids(old(self)@)[j]
                        != id by {
                        assert(old(self)@[j].id() != id);
                    }
                }
                false
            },
        }
    }

    /// Lets one world tick pass for every handle.
    pub fn tick(&mut self)
        ensures
            final(self)@ == ticked_all(old(self)@),
            old(self).wf() ==> final(self).wf(),
    {
        let mut i: usize = 0;
        while i < self.handles.len()
            invariant
                i <= self.handles@.len(),
                self.handles@.len() == old(self).handles@.len(),
                forall|j: int| 0 <= j < i ==> self.handles@[j] == old(self).handles@[j].ticked(),
                forall|j: int|
                    i <= j < self.handles@.len() ==> self.handles@[j] == old(self).handles@[j],
            decreases self.handles@.len() - i,
        {
            let mut handle = self.handles[i].clone();
            handle.tick();
            self.handles.set(i, handle);
            i = i + 1;
        }
        proof {
            assert(self.handles@ =~= ticked_all(old(self).handles@));
            assert(handle_ids(self@) =~= handle_ids(old(self)@));
        }
    }
}

} // verus!
