//! The state of the world around the agents: terrain, what lies on it, who
//! dropped it, where flames stand, and who has picked up what.

use crate::game_map::{MapCell, TileLocation};
use crate::player_hotswap::ModuleId;
use crate::rules::{
    explode, flames_of, killed_by, may_drop_bomb, new_bomb, range_with, ticked, PowerUps,
    BOMB_FUSE_LENGTH,
};
use crate::turn::{find_tile, is_occupied, tile_at};
use crate::world::{Object, PowerUp, Ticks, Tile};
use vstd::prelude::*;

verus! {

/// A bomb that goes off: where it lies and how far it reaches.
pub type Blast = (TileLocation, u32);

/// The world around the agents.
pub struct Board {
    tiles: Vec<(TileLocation, Tile)>,
    spawners: Vec<TileLocation>,
    /// Everything lying on the tiles, bombs included, oldest first.
    objects: Vec<(TileLocation, Object)>,
    /// Who dropped each of the objects, for the bombs among them.
    owners: Vec<Option<ModuleId>>,
    /// Where flames stand since agents last acted.
    flames: Vec<TileLocation>,
    /// Who holds which power-ups.
    holdings: Vec<(ModuleId, PowerUps)>,
}

/// What a bomb going off brings about.
pub struct Ignition {
    /// The agents that die, by their place in the turn order.
    pub killed: Vec<usize>,
    /// The bombs that the flames set off.
    pub set_off: Vec<Blast>,
}

/// The tiles that the cells of a map make.
pub open spec fn tiles_of(cells: Seq<MapCell>) -> Seq<(TileLocation, Tile)> {
    Seq::new(cells.len(), |i: int| (cells[i].location, cells[i].tile))
}

/// The places of a map where players appear, in the order of its cells.
pub open spec fn spawners_of(cells: Seq<MapCell>) -> Seq<TileLocation>
    decreases cells.len(),
{
    if cells.len() == 0 {
        Seq::empty()
    } else {
        let front = spawners_of(cells.drop_last());
        if cells.last().spawner {
            front.push(cells.last().location)
        } else {
            front
        }
    }
}

/// The crates on a map, given a roll of a ten-sided die for each of its
/// cells: a crate stands where the cell's chance is at least the roll.
pub open spec fn crates_of(cells: Seq<MapCell>, rolls: Seq<u32>) -> Seq<(TileLocation, Object)>
    decreases cells.len(),
{
    if cells.len() == 0 {
        Seq::empty()
    } else {
        let front = crates_of(cells.drop_last(), rolls.drop_last());
        if cells.last().crate_chance >= rolls.last() {
            front.push((cells.last().location, Object::Crate))
        } else {
            front
        }
    }
}

/// How many of the objects are bombs of an owner.
pub open spec fn active_bombs(
    objects: Seq<(TileLocation, Object)>,
    owners: Seq<Option<ModuleId>>,
    owner: ModuleId,
) -> nat
    decreases objects.len(),
{
    if objects.len() == 0 {
        0
    } else {
        active_bombs(objects.drop_last(), owners.drop_last(), owner) + if objects.last().1 is Bomb
            && owners.last() == Some(owner) {
            1nat
        } else {
            0nat
        }
    }
}

/// The power-ups that a list of holdings gives a module: those of the first
/// entry for the module, and none where there is no entry.
pub open spec fn held_by(holdings: Seq<(ModuleId, PowerUps)>, module: ModuleId) -> PowerUps
    decreases holdings.len(),
{
    if holdings.len() == 0 {
        PowerUps { bomb_range: 0, simultaneous_bombs: 0, vision_range: 0 }
    } else if holdings[0].0 == module {
        holdings[0].1
    } else {
        held_by(holdings.drop_first(), module)
    }
}

/// The holdings without the entries of a module.
pub open spec fn forgotten(holdings: Seq<(ModuleId, PowerUps)>, module: ModuleId) -> Seq<
    (ModuleId, PowerUps),
>
    decreases holdings.len(),
{
    if holdings.len() == 0 {
        Seq::empty()
    } else {
        let front = forgotten(holdings.drop_last(), module);
        if holdings.last().0 == module {
            front
        } else {
            front.push(holdings.last())
        }
    }
}

/// Whether an object is a bomb whose fuse has burnt down.
pub open spec fn is_due(object: Object) -> bool {
    object matches Object::Bomb { fuse_remaining, .. } && fuse_remaining.0 == 0
}

/// The objects that a world tick leaves: every fuse burns down by one, and
/// the bombs whose fuse had burnt down already are gone.
pub open spec fn left_by_tick(objects: Seq<(TileLocation, Object)>) -> Seq<(TileLocation, Object)>
    decreases objects.len(),
{
    if objects.len() == 0 {
        Seq::empty()
    } else {
        let front = left_by_tick(objects.drop_last());
        if is_due(objects.last().1) {
            front
        } else {
            front.push((objects.last().0, ticked(objects.last().1).0))
        }
    }
}

/// The owners of the objects that a world tick leaves.
pub open spec fn owners_left_by_tick(
    objects: Seq<(TileLocation, Object)>,
    owners: Seq<Option<ModuleId>>,
) -> Seq<Option<ModuleId>>
    decreases objects.len(),
{
    if objects.len() == 0 {
        Seq::empty()
    } else {
        let front = owners_left_by_tick(objects.drop_last(), owners.drop_last());
        if is_due(objects.last().1) {
            front
        } else {
            front.push(owners.last())
        }
    }
}

/// The bombs that go off on a world tick, oldest first.
pub open spec fn due_blasts(objects: Seq<(TileLocation, Object)>) -> Seq<Blast>
    decreases objects.len(),
{
    if objects.len() == 0 {
        Seq::empty()
    } else {
        let front = due_blasts(objects.drop_last());
        match objects.last().1 {
            Object::Bomb { fuse_remaining, range } => if fuse_remaining.0 == 0 {
                front.push((objects.last().0, range))
            } else {
                front
            },
            _ => front,
        }
    }
}

/// The objects that are no bombs, in their order.
pub open spec fn other_than_bombs(objects: Seq<(TileLocation, Object)>) -> Seq<
    (TileLocation, Object),
>
    decreases objects.len(),
{
    if objects.len() == 0 {
        Seq::empty()
    } else {
        let front = other_than_bombs(objects.drop_last());
        if objects.last().1 is Bomb {
            front
        } else {
            front.push(objects.last())
        }
    }
}

/// What fire leaves of the objects from place `at` of the list on, when
/// `used` pieces of loot have been handed out already: what does not stand
/// in flames stays, power-ups stay, bombs are gone, and crates are gone and
/// leave the next piece of loot behind, if that is a power-up.
pub open spec fn left_by_fire(
    objects: Seq<(TileLocation, Object)>,
    flames: Seq<TileLocation>,
    loot: Seq<Option<PowerUp>>,
    at: int,
    used: int,
) -> Seq<(TileLocation, Object)>
    decreases objects.len() - at,
{
    if at < 0 || at >= objects.len() {
        Seq::empty()
    } else if !flames.contains(objects[at].0) {
        seq![objects[at]] + left_by_fire(objects, flames, loot, at + 1, used)
    } else {
        match objects[at].1 {
            Object::Bomb { .. } => left_by_fire(objects, flames, loot, at + 1, used),
            Object::PowerUp(_) => seq![objects[at]] + left_by_fire(
                objects,
                flames,
                loot,
                at + 1,
                used,
            ),
            Object::Crate => {
                let rest = left_by_fire(objects, flames, loot, at + 1, used + 1);
                if 0 <= used < loot.len() && loot[used] is Some {
                    seq![(objects[at].0, Object::PowerUp(loot[used]->0))] + rest
                } else {
                    rest
                }
            },
        }
    }
}

/// Who owns what fire leaves of the objects: what stays keeps its owner, and
/// loot has none.
pub open spec fn owners_left_by_fire(
    objects: Seq<(TileLocation, Object)>,
    owners: Seq<Option<ModuleId>>,
    flames: Seq<TileLocation>,
    loot: Seq<Option<PowerUp>>,
    at: int,
    used: int,
) -> Seq<Option<ModuleId>>
    decreases objects.len() - at,
{
    if at < 0 || at >= objects.len() {
        Seq::empty()
    } else if !flames.contains(objects[at].0) {
        seq![owners[at]] + owners_left_by_fire(objects, owners, flames, loot, at + 1, used)
    } else {
        match objects[at].1 {
            Object::Bomb { .. } => owners_left_by_fire(objects, owners, flames, loot, at + 1, used),
            Object::PowerUp(_) => seq![owners[at]] + owners_left_by_fire(
                objects,
                owners,
                flames,
                loot,
                at + 1,
                used,
            ),
            Object::Crate => {
                let rest = owners_left_by_fire(objects, owners, flames, loot, at + 1, used + 1);
                if 0 <= used < loot.len() && loot[used] is Some {
                    seq![None] + rest
                } else {
                    rest
                }
            },
        }
    }
}

/// The bombs standing in flames, oldest first.
pub open spec fn set_off_by(objects: Seq<(TileLocation, Object)>, flames: Seq<TileLocation>) -> Seq<
    Blast,
>
    decreases objects.len(),
{
    if objects.len() == 0 {
        Seq::empty()
    } else {
        let front = set_off_by(objects.drop_last(), flames);
        match objects.last().1 {
            Object::Bomb { range, .. } => if flames.contains(objects.last().0) {
                front.push((objects.last().0, range))
            } else {
                front
            },
            _ => front,
        }
    }
}

/// Where the first power-up lying at a location stands in the list of
/// objects. Minus one where there is none.
pub open spec fn power_up_at(objects: Seq<(TileLocation, Object)>, location: TileLocation) -> int
    decreases objects.len(),
{
    if objects.len() == 0 {
        -1
    } else {
        let before = power_up_at(objects.drop_last(), location);
        if before >= 0 {
            before
        } else if objects.last().0 == location && objects.last().1 is PowerUp {
            objects.len() - 1
        } else {
            -1
        }
    }
}

/// The holdings after a module has picked a power-up up: the first entry of
/// the module holds one more, and a module without an entry gets one.
pub open spec fn with_pick_up(holdings: Seq<(ModuleId, PowerUps)>, module: ModuleId, kind: PowerUp) -> Seq<
    (ModuleId, PowerUps),
>
    decreases holdings.len(),
{
    if holdings.len() == 0 {
        seq![
            (module, (PowerUps { bomb_range: 0, simultaneous_bombs: 0, vision_range: 0 }).with(kind)),
        ]
    } else if holdings[0].0 == module {
        seq![(module, holdings[0].1.with(kind))] + holdings.drop_first()
    } else {
        seq![holdings[0]] + with_pick_up(holdings.drop_first(), module, kind)
    }
}

impl Board {
    /// The terrain.
    pub closed spec fn tiles(&self) -> Seq<(TileLocation, Tile)> {
        self.tiles@
    }

    /// The places where new agents appear.
    pub closed spec fn spawners(&self) -> Seq<TileLocation> {
        self.spawners@
    }

    /// What lies on the tiles, oldest first.
    pub closed spec fn objects(&self) -> Seq<(TileLocation, Object)> {
        self.objects@
    }

    /// Who dropped each of the objects.
    pub closed spec fn owners(&self) -> Seq<Option<ModuleId>> {
        self.owners@
    }

    /// Where flames stand.
    pub closed spec fn flames(&self) -> Seq<TileLocation> {
        self.flames@
    }

    /// Who holds which power-ups.
    pub closed spec fn holdings(&self) -> Seq<(ModuleId, PowerUps)> {
        self.holdings@
    }

    /// Every object has an entry in the list of owners.
    pub closed spec fn wf(&self) -> bool {
        self.owners@.len() == self.objects@.len()
    }

    /// Sets a board up from the cells of a map, given a roll of a ten-sided
    /// die for each cell.
    pub fn from_cells(cells: &Vec<MapCell>, rolls: &Vec<u32>) -> (board: Board)
        requires
            rolls@.len() == cells@.len(),
        ensures
            board.wf(),
            board.tiles() == tiles_of(cells@),
            board.spawners() == spawners_of(cells@),
            board.objects() == crates_of(cells@, rolls@),
            forall|i: int| 0 <= i < board.owners().len() ==> board.owners()[i] is None,
            board.flames().len() == 0,
            board.holdings().len() == 0,
    {
        let mut tiles: Vec<(TileLocation, Tile)> = Vec::new();
        let mut spawners: Vec<TileLocation> = Vec::new();
        let mut objects: Vec<(TileLocation, Object)> = Vec::new();
        let mut owners: Vec<Option<ModuleId>> = Vec::new();
        let mut i: usize = 0;
        assert(cells@.take(0) =~= Seq::empty());
        while i < cells.len()
            invariant
                i <= cells@.len(),
                rolls@.len() == cells@.len(),
                tiles@ == tiles_of(cells@.take(i as int)),
                spawners@ == spawners_of(cells@.take(i as int)),
                objects@ == crates_of(cells@.take(i as int), rolls@.take(i as int)),
                owners@.len() == objects@.len(),
                forall|k: int| 0 <= k < owners@.len() ==> owners@[k] is None,
            decreases cells@.len() - i,
        {
            proof {
                assert(cells@.take(i + 1).drop_last() =~= cells@.take(i as int));
                assert(rolls@.take(i + 1).drop_last() =~= rolls@.take(i as int));
            }
            let cell = cells[i];
            tiles.push((cell.location, cell.tile));
            if cell.spawner {
                spawners.push(cell.location);
            }
            if cell.crate_chance >= rolls[i] {
                objects.push((cell.location, Object::Crate));
                owners.push(None);
            }
            i = i + 1;
            assert(tiles@ =~= tiles_of(cells@.take(i as int)));
        }
        assert(cells@.take(i as int) =~= cells@);
        assert(rolls@.take(i as int) =~= rolls@);
        Board { tiles, spawners, objects, owners, flames: Vec::new(), holdings: Vec::new() }
    }

    /// The terrain.
    pub fn tile_list(&self) -> (tiles: &Vec<(TileLocation, Tile)>)
        ensures
            tiles@ == self.tiles(),
    {
        &self.tiles
    }

    /// The places where new agents appear.
    pub fn spawner_list(&self) -> (spawners: &Vec<TileLocation>)
        ensures
            spawners@ == self.spawners(),
    {
        &self.spawners
    }

    /// What lies on the tiles.
    pub fn object_list(&self) -> (objects: &Vec<(TileLocation, Object)>)
        ensures
            objects@ == self.objects(),
    {
        &self.objects
    }

    /// Where flames stand.
    pub fn flame_list(&self) -> (flames: &Vec<TileLocation>)
        ensures
            flames@ == self.flames(),
    {
        &self.flames
    }

    /// The terrain at a location.
    pub fn tile(&self, location: TileLocation) -> (tile: Option<Tile>)
        ensures
            tile == tile_at(self.tiles(), location),
    {
        find_tile(&self.tiles, location)
    }

    /// The power-ups that a module holds.
    pub fn power_ups_of(&self, module: ModuleId) -> (power_ups: PowerUps)
        ensures
            power_ups == held_by(self.holdings(), module),
    {
        let mut i: usize = 0;
        assert(self.holdings@.skip(0) =~= self.holdings@);
        while i < self.holdings.len()
            invariant
                i <= self.holdings@.len(),
                held_by(self.holdings@, module) == held_by(self.holdings@.skip(i as int), module),
            decreases self.holdings@.len() - i,
        {
            proof {
                assert(self.holdings@.skip(i as int)[0] == self.holdings@[i as int]);
                assert(self.holdings@.skip(i as int).drop_first() =~= self.holdings@.skip(i + 1));
            }
            if self.holdings[i].0 == module {
                return self.holdings[i].1;
            }
            i = i + 1;
        }
        assert(self.holdings@.skip(i as int).len() == 0);
        PowerUps::new()
    }

    /// Takes all power-ups from a module: an agent that enters the arena
    /// starts without any.
    pub fn forget(&mut self, module: ModuleId)
        requires
            old(self).wf(),
        ensures
            final(self).wf(),
            final(self).holdings() == forgotten(old(self).holdings(), module),
            final(self).tiles() == old(self).tiles(),
            final(self).spawners() == old(self).spawners(),
            final(self).objects() == old(self).objects(),
            final(self).owners() == old(self).owners(),
            final(self).flames() == old(self).flames(),
    {
        let mut kept: Vec<(ModuleId, PowerUps)> = Vec::new();
        let mut i: usize = 0;
        assert(self.holdings@.take(0) =~= Seq::empty());
        while i < self.holdings.len()
            invariant
                i <= self.holdings@.len(),
                self.holdings@ == old(self).holdings@,
                kept@ == forgotten(self.holdings@.take(i as int), module),
            decreases self.holdings@.len() - i,
        {
            proof {
                assert(self.holdings@.take(i + 1).drop_last() =~= self.holdings@.take(i as int));
            }
            if self.holdings[i].0 != module {
                kept.push(self.holdings[i]);
            }
            i = i + 1;
        }
        assert(self.holdings@.take(i as int) =~= self.holdings@);
        self.holdings = kept;
    }

    /// How many bombs of an owner are ticking.
    pub fn count_bombs(&self, owner: ModuleId) -> (count: usize)
        requires
            self.wf(),
        ensures
            count == active_bombs(self.objects(), self.owners(), owner),
    {
        let mut count: usize = 0;
        let mut i: usize = 0;
        assert(self.objects@.take(0) =~= Seq::empty());
        while i < self.objects.len()
            invariant
                i <= self.objects@.len(),
                self.owners@.len() == self.objects@.len(),
                count <= i,
                count == active_bombs(
                    self.objects@.take(i as int),
                    self.owners@.take(i as int),
                    owner,
                ),
            decreases self.objects@.len() - i,
        {
            proof {
                assert(self.objects@.take(i + 1).drop_last() =~= self.objects@.take(i as int));
                assert(self.owners@.take(i + 1).drop_last() =~= self.owners@.take(i as int));
            }
            let is_bomb = match self.objects[i].1 {
                Object::Bomb { .. } => true,
                _ => false,
            };
            let by_owner = match self.owners[i] {
                Some(by) => by == owner,
                None => false,
            };
            if is_bomb && by_owner {
                count = count + 1;
            }
            i = i + 1;
        }
        assert(self.objects@.take(i as int) =~= self.objects@);
        assert(self.owners@.take(i as int) =~= self.owners@);
        count
    }

    /// Drops a bomb in the name of a module, if the module may drop one
    /// more: the bomb lies at the location, last among the objects, with the
    /// usual fuse and the range that the owner's power-ups give it.
    pub fn drop_bomb(&mut self, location: TileLocation, owner: ModuleId) -> (dropped: bool)
        requires
            old(self).wf(),
        ensures
            final(self).wf(),
            dropped == (active_bombs(old(self).objects(), old(self).owners(), owner) < 1 + held_by(
                old(self).holdings(),
                owner,
            ).simultaneous_bombs),
            dropped ==> {
                &&& final(self).objects() == old(self).objects().push(
                    (
                        location,
                        Object::Bomb {
                            fuse_remaining: Ticks(BOMB_FUSE_LENGTH),
                            range: range_with(held_by(old(self).holdings(), owner)) as u32,
                        },
                    ),
                )
                &&& final(self).owners() == old(self).owners().push(Some(owner))
            },
            !dropped ==> {
                &&& final(self).objects() == old(self).objects()
                &&& final(self).owners() == old(self).owners()
            },
            final(self).tiles() == old(self).tiles(),
            final(self).spawners() == old(self).spawners(),
            final(self).flames() == old(self).flames(),
            final(self).holdings() == old(self).holdings(),
    {
        let power_ups = self.power_ups_of(owner);
        let active = self.count_bombs(owner);
        if may_drop_bomb(active, &power_ups) {
            self.objects.push((location, new_bomb(&power_ups)));
            self.owners.push(Some(owner));
            true
        } else {
            false
        }
    }

    /// Lets a world tick pass for the bombs: every fuse burns down by one,
    /// and the bombs whose fuse had burnt down already leave the board to go
    /// off. They are handed back, oldest first.
    pub fn tick_fuses(&mut self) -> (due: Vec<Blast>)
        requires
            old(self).wf(),
        ensures
            final(self).wf(),
            final(self).objects() == left_by_tick(old(self).objects()),
            final(self).owners() == owners_left_by_tick(old(self).objects(), old(self).owners()),
            due@ == due_blasts(old(self).objects()),
            final(self).tiles() == old(self).tiles(),
            final(self).spawners() == old(self).spawners(),
            final(self).flames() == old(self).flames(),
            final(self).holdings() == old(self).holdings(),
    {
        let mut objects: Vec<(TileLocation, Object)> = Vec::new();
        let mut owners: Vec<Option<ModuleId>> = Vec::new();
        let mut due: Vec<Blast> = Vec::new();
        let mut i: usize = 0;
        assert(self.objects@.take(0) =~= Seq::empty());
        assert(self.owners@.take(0) =~= Seq::empty());
        while i < self.objects.len()
            invariant
                i <= self.objects@.len(),
                self.owners@.len() == self.objects@.len(),
                self.objects@ == old(self).objects@,
                self.owners@ == old(self).owners@,
                objects@ == left_by_tick(self.objects@.take(i as int)),
                owners@ == owners_left_by_tick(
                    self.objects@.take(i as int),
                    self.owners@.take(i as int),
                ),
                owners@.len() == objects@.len(),
                due@ == due_blasts(self.objects@.take(i as int)),
            decreases self.objects@.len() - i,
        {
            proof {
                assert(self.objects@.take(i + 1).drop_last() =~= self.objects@.take(i as int));
                assert(self.owners@.take(i + 1).drop_last() =~= self.owners@.take(i as int));
            }
            let (location, object) = self.objects[i];
            match object {
                Object::Bomb { fuse_remaining, range } => {
                    if fuse_remaining.0 == 0 {
                        due.push((location, range));
                    } else {
                        objects.push(
                            (
                                location,
                                Object::Bomb { fuse_remaining: Ticks(fuse_remaining.0 - 1), range },
                            ),
                        );
                        owners.push(self.owners[i]);
                    }
                },
                other => {
                    objects.push((location, other));
                    owners.push(self.owners[i]);
                },
            }
            i = i + 1;
        }
        assert(self.objects@.take(i as int) =~= self.objects@);
        assert(self.owners@.take(i as int) =~= self.owners@);
        self.objects = objects;
        self.owners = owners;
        due
    }

    /// The objects that are no bombs.
    fn others(&self) -> (others: Vec<(TileLocation, Object)>)
        ensures
            others@ == other_than_bombs(self.objects@),
    {
        let mut others: Vec<(TileLocation, Object)> = Vec::new();
        let mut i: usize = 0;
        assert(self.objects@.take(0) =~= Seq::empty());
        while i < self.objects.len()
            invariant
                i <= self.objects@.len(),
                others@ == other_than_bombs(self.objects@.take(i as int)),
            decreases self.objects@.len() - i,
        {
            proof {
                assert(self.objects@.take(i + 1).drop_last() =~= self.objects@.take(i as int));
            }
            match self.objects[i].1 {
                Object::Bomb { .. } => {},
                _ => {
                    others.push(self.objects[i]);
                },
            }
            i = i + 1;
        }
        assert(self.objects@.take(i as int) =~= self.objects@);
        others
    }

    /// Lets a bomb go off that has left the board. Its flames join the
    /// flames standing already. Agents standing in its flames die. Of the
    /// objects standing in any flame, bombs leave the board to go off in
    /// turn, and crates are blown up and leave behind the loot handed in,
    /// piece by piece, where a piece is a power-up.
    pub fn ignite(
        &mut self,
        blast: Blast,
        agents: &Vec<TileLocation>,
        loot: &Vec<Option<PowerUp>>,
    ) -> (ignition: Ignition)
        requires
            old(self).wf(),
        ensures
            final(self).wf(),
            final(self).flames() == old(self).flames() + flames_of(
                blast.0,
                blast.1,
                old(self).tiles(),
                other_than_bombs(old(self).objects()),
            ),
            ignition.killed@ == killed_by(
                flames_of(
                    blast.0,
                    blast.1,
                    old(self).tiles(),
                    other_than_bombs(old(self).objects()),
                ),
                other_than_bombs(old(self).objects()),
                agents@,
            ),
            ignition.set_off@ == set_off_by(old(self).objects(), final(self).flames()),
            final(self).objects() == left_by_fire(
                old(self).objects(),
                final(self).flames(),
                loot@,
                0,
                0,
            ),
            final(self).owners() == owners_left_by_fire(
                old(self).objects(),
                old(self).owners(),
                final(self).flames(),
                loot@,
                0,
                0,
            ),
            final(self).tiles() == old(self).tiles(),
            final(self).spawners() == old(self).spawners(),
            final(self).holdings() == old(self).holdings(),
    {
        let others = self.others();
        let explosion = explode(blast.0, blast.1, &self.tiles, &others, agents);
        let ghost before = self.flames@;
        let mut f: usize = 0;
        while f < explosion.flames.len()
            invariant
                f <= explosion.flames@.len(),
                self.flames@ == before + explosion.flames@.take(f as int),
                self.objects@ == old(self).objects@,
                self.owners@ == old(self).owners@,
                self.tiles@ == old(self).tiles@,
                self.spawners@ == old(self).spawners@,
                self.holdings@ == old(self).holdings@,
            decreases explosion.flames@.len() - f,
        {
            self.flames.push(explosion.flames[f]);
            f = f + 1;
            assert(self.flames@ =~= before + explosion.flames@.take(f as int));
        }
        assert(explosion.flames@.take(f as int) =~= explosion.flames@);

        let ghost flames = self.flames@;
        let ghost all = self.objects@;
        let ghost all_owners = self.owners@;
        let mut objects: Vec<(TileLocation, Object)> = Vec::new();
        let mut owners: Vec<Option<ModuleId>> = Vec::new();
        let mut set_off: Vec<Blast> = Vec::new();
        let mut used: usize = 0;
        let mut i: usize = 0;
        assert(all.take(0) =~= Seq::empty());
        assert(objects@ + left_by_fire(all, flames, loot@, 0, 0) =~= left_by_fire(
            all,
            flames,
            loot@,
            0,
            0,
        ));
        assert(owners@ + owners_left_by_fire(all, all_owners, flames, loot@, 0, 0)
            =~= owners_left_by_fire(all, all_owners, flames, loot@, 0, 0));
        while i < self.objects.len()
            invariant
                i <= self.objects@.len(),
                used <= i,
                self.objects@ == all,
                self.owners@ == all_owners,
                all_owners.len() == all.len(),
                self.flames@ == flames,
                objects@ + left_by_fire(all, flames, loot@, i as int, used as int) == left_by_fire(
                    all,
                    flames,
                    loot@,
                    0,
                    0,
                ),
                owners@ + owners_left_by_fire(
                    all,
                    all_owners,
                    flames,
                    loot@,
                    i as int,
                    used as int,
                ) == owners_left_by_fire(all, all_owners, flames, loot@, 0, 0),
                owners@.len() == objects@.len(),
                set_off@ == set_off_by(all.take(i as int), flames),
            decreases self.objects@.len() - i,
        {
            proof {
                assert(all.take(i + 1).drop_last() =~= all.take(i as int));
            }
            let (location, object) = self.objects[i];
            let owner = self.owners[i];
            let ghost rest = left_by_fire(all, flames, loot@, i + 1, used as int);
            let ghost rest_owners = owners_left_by_fire(
                all,
                all_owners,
                flames,
                loot@,
                i + 1,
                used as int,
            );
            if !is_occupied(&self.flames, location) {
                proof {
                    assert(objects@.push((location, object)) + rest =~= objects@ + (seq![all[i as int]]
                        + rest));
                    assert(owners@.push(owner) + rest_owners =~= owners@ + (seq![
                        all_owners[i as int],
                    ] + rest_owners));
                }
                objects.push((location, object));
                owners.push(owner);
            } else {
                match object {
                    Object::Bomb { range, .. } => {
                        set_off.push((location, range));
                    },
                    Object::PowerUp(_) => {
                        proof {
                            assert(objects@.push((location, object)) + rest =~= objects@ + (seq![
                                all[i as int],
                            ] + rest));
                            assert(owners@.push(owner) + rest_owners =~= owners@ + (seq![
                                all_owners[i as int],
                            ] + rest_owners));
                        }
                        objects.push((location, object));
                        owners.push(owner);
                    },
                    Object::Crate => {
                        let ghost after = left_by_fire(all, flames, loot@, i + 1, used + 1);
                        let ghost after_owners = owners_left_by_fire(
                            all,
                            all_owners,
                            flames,
                            loot@,
                            i + 1,
                            used + 1,
                        );
                        let piece = if used < loot.len() {
                            loot[used]
                        } else {
                            None
                        };
                        match piece {
                            Some(power_up) => {
                                proof {
                                    let left = (location, Object::PowerUp(power_up));
                                    assert(objects@.push(left) + after =~= objects@ + (seq![left]
                                        + after));
                                    assert(owners@.push(None) + after_owners =~= owners@ + (seq![
                                        None,
                                    ] + after_owners));
                                }
                                objects.push((location, Object::PowerUp(power_up)));
                                owners.push(None);
                            },
                            None => {},
                        }
                        used = used + 1;
                    },
                }
            }
            i = i + 1;
        }
        proof {
            assert(all.take(i as int) =~= all);
            assert(objects@ + Seq::<(TileLocation, Object)>::empty() =~= objects@);
            assert(owners@ + Seq::<Option<ModuleId>>::empty() =~= owners@);
        }
        self.objects = objects;
        self.owners = owners;
        Ignition { killed: explosion.killed, set_off }
    }

    /// Puts the flames out. Flames do their harm when a bomb goes off; after
    /// that they are only shown, until the agents act again.
    pub fn put_out(&mut self)
        requires
            old(self).wf(),
        ensures
            final(self).wf(),
            final(self).flames().len() == 0,
            final(self).tiles() == old(self).tiles(),
            final(self).spawners() == old(self).spawners(),
            final(self).objects() == old(self).objects(),
            final(self).owners() == old(self).owners(),
            final(self).holdings() == old(self).holdings(),
    {
        self.flames = Vec::new();
    }

    /// Lets the agent of a module pick up the power-up it stands on: the
    /// first power-up lying at the location leaves the board and goes to the
    /// module. Where no power-up lies, nothing changes.
    pub fn pick_up(&mut self, module: ModuleId, location: TileLocation) -> (picked: Option<PowerUp>)
        requires
            old(self).wf(),
        ensures
            final(self).wf(),
            match picked {
                Some(kind) => {
                    let index = power_up_at(old(self).objects(), location);
                    &&& 0 <= index < old(self).objects().len()
                    &&& old(self).objects()[index] == (location, Object::PowerUp(kind))
                    &&& final(self).objects() == old(self).objects().remove(index)
                    &&& final(self).owners() == old(self).owners().remove(index)
                    &&& final(self).holdings() == with_pick_up(old(self).holdings(), module, kind)
                },
                None => {
                    &&& power_up_at(old(self).objects(), location) < 0
                    &&& final(self).objects() == old(self).objects()
                    &&& final(self).owners() == old(self).owners()
                    &&& final(self).holdings() == old(self).holdings()
                },
            },
            final(self).tiles() == old(self).tiles(),
            final(self).spawners() == old(self).spawners(),
            final(self).flames() == old(self).flames(),
    {
        let mut i: usize = 0;
        let mut found: Option<(usize, PowerUp)> = None;
        assert(self.objects@.take(0) =~= Seq::empty());
        while i < self.objects.len() && found.is_none()
            invariant
                i <= self.objects@.len(),
                match found {
                    Some((index, kind)) => index < self.objects@.len() && power_up_at(
                        self.objects@.take(i as int),
                        location,
                    ) == index && self.objects@[index as int] == (
                        location,
                        Object::PowerUp(kind),
                    ),
                    None => power_up_at(self.objects@.take(i as int), location) < 0,
                },
            decreases self.objects@.len() - i,
        {
            proof {
                assert(self.objects@.take(i + 1).drop_last() =~= self.objects@.take(i as int));
            }
            let (at, object) = self.objects[i];
            match object {
                Object::PowerUp(kind) => {
                    if at == location {
                        found = Some((i, kind));
                    }
                },
                _ => {},
            }
            i = i + 1;
        }
        match found {
            Some((index, kind)) => {
                proof {
                    lemma_power_up_at_stays(self.objects@, location, i as int);
                }
                self.objects.remove(index);
                self.owners.remove(index);
                self.grant(module, kind);
                Some(kind)
            },
            None => {
                assert(self.objects@.take(i as int) =~= self.objects@);
                None
            },
        }
    }

    /// Gives a module one more power-up of a kind.
    fn grant(&mut self, module: ModuleId, kind: PowerUp)
        ensures
            final(self).holdings@ == with_pick_up(old(self).holdings@, module, kind),
            final(self).tiles == old(self).tiles,
            final(self).spawners == old(self).spawners,
            final(self).objects == old(self).objects,
            final(self).owners == old(self).owners,
            final(self).flames == old(self).flames,
    {
        let ghost before = self.holdings@;
        let mut i: usize = 0;
        assert(before.take(0) + with_pick_up(before.skip(0), module, kind) =~= with_pick_up(
            before,
            module,
            kind,
        )) by {
            assert(before.skip(0) =~= before);
            assert(before.take(0) =~= Seq::empty());
        }
        while i < self.holdings.len()
            invariant
                i <= self.holdings@.len(),
                self.holdings@ == before,
                before == old(self).holdings@,
                self.tiles == old(self).tiles,
                self.spawners == old(self).spawners,
                self.objects == old(self).objects,
                self.owners == old(self).owners,
                self.flames == old(self).flames,
                before.take(i as int) + with_pick_up(before.skip(i as int), module, kind)
                    == with_pick_up(before, module, kind),
            decreases self.holdings@.len() - i,
        {
            proof {
                assert(before.skip(i as int)[0] == before[i as int]);
                assert(before.skip(i as int).drop_first() =~= before.skip(i + 1));
            }
            if self.holdings[i].0 == module {
                let mut power_ups = self.holdings[i].1;
                power_ups.pick_up(kind);
                self.holdings.set(i, (module, power_ups));
                proof {
                    let entry = (module, before[i as int].1.with(kind));
                    assert(with_pick_up(before.skip(i as int), module, kind) =~= seq![entry]
                        + before.skip(i + 1));
                    assert(self.holdings@ =~= before.take(i as int) + (seq![entry] + before.skip(
                        i + 1,
                    )));
                }
                return ;
            }
            proof {
                assert(before.take(i + 1) + with_pick_up(before.skip(i + 1), module, kind)
                    =~= before.take(i as int) + (seq![before[i as int]] + with_pick_up(
                    before.skip(i + 1),
                    module,
                    kind,
                )));
            }
            i = i + 1;
        }
        let mut power_ups = PowerUps::new();
        power_ups.pick_up(kind);
        self.holdings.push((module, power_ups));
        proof {
            assert(before.skip(i as int).len() == 0);
            assert(before.take(i as int) =~= before);
            assert(self.holdings@ =~= before + seq![
                (
                    module,
                    (PowerUps { bomb_range: 0, simultaneous_bombs: 0, vision_range: 0 }).with(kind),
                ),
            ]);
        }
    }
}

/// The first power-up at a location among the first objects is the first
/// among all the objects.
pub proof fn lemma_power_up_at_stays(
    objects: Seq<(TileLocation, Object)>,
    location: TileLocation,
    count: int,
)
    requires
        0 <= count <= objects.len(),
        power_up_at(objects.take(count), location) >= 0,
    ensures
        power_up_at(objects, location) == power_up_at(objects.take(count), location),
    decreases objects.len() - count,
{
    if count == objects.len() {
        assert(objects.take(count) =~= objects);
    } else {
        assert(objects.drop_last().take(count) =~= objects.take(count));
        lemma_power_up_at_stays(objects.drop_last(), location, count);
    }
}

} // verus!
