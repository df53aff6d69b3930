//! The rules of the game around the agents: bombs and their flames, crates
//! and power-ups, points, and the beat of the game.

use crate::game_map::TileLocation;
use crate::turn::{find_object, find_tile, object_at, tile_at};
use crate::world::{Direction, Object, PowerUp, Ticks, Tile};
use vstd::prelude::*;

verus! {

/// A bomb explodes after this number of ticks since it is placed.
pub const BOMB_FUSE_LENGTH: u32 = 2;

/// How many tiles an explosion reaches in each direction without power-ups.
pub const BASE_BOMB_RANGE: u32 = 2;

/// The power-ups that an agent holds, by kind.
#[derive(Copy, Clone, Debug, PartialEq, Eq, Structural)]
pub struct PowerUps {
    pub bomb_range: u32,
    pub simultaneous_bombs: u32,
    pub vision_range: u32,
}

/// What fire does to an object.
#[derive(Copy, Clone, Debug, PartialEq, Eq, Structural)]
pub enum FireEffect {
    /// A bomb goes off at once.
    Explodes,
    /// A crate is blown up, and may leave a power-up behind.
    BlowsUp,
    /// A power-up does not burn.
    Nothing,
}

/// What an explosion does: where its flames stand, and which agents it
/// kills, by their place in the turn order.
pub struct Explosion {
    pub flames: Vec<TileLocation>,
    pub killed: Vec<usize>,
}

/// The two beats of the game. Agents act on player ticks; the world reacts
/// on world ticks, so that no agent moves away from a bomb in the moment it
/// explodes.
#[derive(Copy, Clone, Debug, PartialEq, Eq, Structural)]
pub enum Tick {
    Player,
    World,
}

impl PowerUps {
    /// No power-ups.
    pub fn new() -> (power_ups: PowerUps)
        ensures
            power_ups == (PowerUps { bomb_range: 0, simultaneous_bombs: 0, vision_range: 0 }),
    {
        PowerUps { bomb_range: 0, simultaneous_bombs: 0, vision_range: 0 }
    }

    /// How many power-ups of a kind are held.
    pub open spec fn held(self, kind: PowerUp) -> nat {
        match kind {
            PowerUp::BombRange => self.bomb_range as nat,
            PowerUp::SimultaneousBombs => self.simultaneous_bombs as nat,
            PowerUp::VisionRange => self.vision_range as nat,
        }
    }

    /// The power-ups after one more of a kind has been picked up: one more
    /// of that kind, but never more than an agent may hold.
    pub open spec fn with(self, kind: PowerUp) -> PowerUps {
        let count = if self.held(kind) + 1 <= kind.max_count() {
            (self.held(kind) + 1) as u32
        } else {
            kind.max_count() as u32
        };
        match kind {
            PowerUp::BombRange => PowerUps { bomb_range: count, ..self },
            PowerUp::SimultaneousBombs => PowerUps { simultaneous_bombs: count, ..self },
            PowerUp::VisionRange => PowerUps { vision_range: count, ..self },
        }
    }

    /// How many power-ups of a kind are held.
    pub fn count(&self, kind: PowerUp) -> (count: u32)
        ensures
            count == self.held(kind),
    {
        match kind {
            PowerUp::BombRange => self.bomb_range,
            PowerUp::SimultaneousBombs => self.simultaneous_bombs,
            PowerUp::VisionRange => self.vision_range,
        }
    }

    /// Picks a power-up up.
    pub fn pick_up(&mut self, kind: PowerUp)
        ensures
            *final(self) == old(self).with(kind),
    {
        let limit = kind.max_count_per_player();
        let held = self.count(kind);
        let count = if held < limit {
            held + 1
        } else {
            limit
        };
        match kind {
            PowerUp::BombRange => {
                self.bomb_range = count;
            },
            PowerUp::SimultaneousBombs => {
                self.simultaneous_bombs = count;
            },
            PowerUp::VisionRange => {
                self.vision_range = count;
            },
        }
    }
}

/// How far the bombs of an agent reach, as far as 32 bits can tell.
pub open spec fn range_with(power_ups: PowerUps) -> int {
    if BASE_BOMB_RANGE + power_ups.bomb_range > u32::MAX {
        u32::MAX as int
    } else {
        BASE_BOMB_RANGE + power_ups.bomb_range
    }
}

/// How far the bombs of an agent reach.
pub fn bomb_range(power_ups: &PowerUps) -> (range: u32)
    ensures
        range == range_with(*power_ups),
{
    BASE_BOMB_RANGE.saturating_add(power_ups.bomb_range)
}

/// Whether an agent that has `active` bombs ticking may drop another: one
/// bomb at a time, and one more for each power-up.
pub fn may_drop_bomb(active: usize, power_ups: &PowerUps) -> (allowed: bool)
    ensures
        allowed == (active < 1 + power_ups.simultaneous_bombs),
{
    active as u64 <= power_ups.simultaneous_bombs as u64
}

/// The bomb that an agent drops.
pub fn new_bomb(power_ups: &PowerUps) -> (bomb: Object)
    ensures
        bomb == (Object::Bomb {
            fuse_remaining: Ticks(BOMB_FUSE_LENGTH),
            range: range_with(*power_ups) as u32,
        }),
{
    Object::Bomb { fuse_remaining: Ticks(BOMB_FUSE_LENGTH), range: bomb_range(power_ups) }
}

/// What a world tick makes of an object: the fuse of a bomb burns down by
/// one, and a bomb whose fuse had burnt down already is to explode.
pub open spec fn ticked(object: Object) -> (Object, bool) {
    match object {
        Object::Bomb { fuse_remaining, range } => (
            Object::Bomb {
                fuse_remaining: Ticks(
                    if fuse_remaining.0 == 0 {
                        0
                    } else {
                        (fuse_remaining.0 - 1) as u32
                    },
                ),
                range,
            },
            fuse_remaining.0 == 0,
        ),
        _ => (object, false),
    }
}

/// Lets a world tick pass for an object, and says whether it is to explode.
pub fn tick_fuse(object: &mut Object) -> (should_explode: bool)
    ensures
        (*final(object), should_explode) == ticked(*old(object)),
{
    match *object {
        Object::Bomb { fuse_remaining, range } => {
            let should_explode = fuse_remaining.0 == 0;
            let fuse = if should_explode {
                0
            } else {
                fuse_remaining.0 - 1
            };
            *object = Object::Bomb { fuse_remaining: Ticks(fuse), range };
            should_explode
        },
        _ => false,
    }
}

/// A coordinate moved by a number of tiles, stopping at the edges of what a
/// coordinate can hold.
pub open spec fn slid(coordinate: usize, by: i32) -> usize {
    if coordinate + by < 0 {
        0
    } else if coordinate + by > usize::MAX {
        usize::MAX
    } else {
        (coordinate + by) as usize
    }
}

/// The cell that lies a number of tiles away in a direction, stopping at
/// the edges.
pub open spec fn cell_towards(from: TileLocation, direction: Direction, reach: i32) -> TileLocation {
    match direction {
        Direction::West => TileLocation(slid(from.0, (-reach) as i32), from.1),
        Direction::North => TileLocation(from.0, slid(from.1, reach)),
        Direction::East => TileLocation(slid(from.0, reach), from.1),
        Direction::South => TileLocation(from.0, slid(from.1, (-reach) as i32)),
    }
}

/// The flames of one arm of an explosion, from the cell `reach` tiles away
/// from the bomb outwards: the arm ends before a wall, on a crate, and where
/// the range ends.
pub open spec fn arm_of(
    bomb: TileLocation,
    direction: Direction,
    reach: int,
    range: u32,
    tiles: Seq<(TileLocation, Tile)>,
    objects: Seq<(TileLocation, Object)>,
) -> Seq<TileLocation>
    decreases range - reach + 1,
{
    if reach < 1 || reach > range || reach > i32::MAX {
        Seq::empty()
    } else {
        let cell = cell_towards(bomb, direction, reach as i32);
        if tile_at(tiles, cell) == Some(Tile::Wall) {
            Seq::empty()
        } else if object_at(objects, cell) == Some(Object::Crate) {
            seq![cell]
        } else {
            seq![cell] + arm_of(bomb, direction, reach + 1, range, tiles, objects)
        }
    }
}

/// Where the flames of an explosion stand: on the bomb, and along the four
/// arms, west, north, east and south.
pub open spec fn flames_of(
    bomb: TileLocation,
    range: u32,
    tiles: Seq<(TileLocation, Tile)>,
    objects: Seq<(TileLocation, Object)>,
) -> Seq<TileLocation> {
    seq![bomb] + arm_of(bomb, Direction::West, 1, range, tiles, objects) + arm_of(
        bomb,
        Direction::North,
        1,
        range,
        tiles,
        objects,
    ) + arm_of(bomb, Direction::East, 1, range, tiles, objects) + arm_of(
        bomb,
        Direction::South,
        1,
        range,
        tiles,
        objects,
    )
}

/// The first agent standing at a cell, by its place in the turn order.
pub open spec fn agent_at(agents: Seq<TileLocation>, cell: TileLocation) -> Option<int>
    decreases agents.len(),
{
    if agents.len() == 0 {
        None
    } else {
        match agent_at(agents.drop_last(), cell) {
            Some(index) => Some(index),
            None => if agents.last() == cell {
                Some(agents.len() - 1)
            } else {
                None
            },
        }
    }
}

/// The first agent at a cell among the first agents is the first agent at
/// the cell among all.
pub proof fn lemma_agent_at_stays(agents: Seq<TileLocation>, cell: TileLocation, count: int)
    requires
        0 <= count <= agents.len(),
        agent_at(agents.take(count), cell) is Some,
    ensures
        agent_at(agents, cell) == agent_at(agents.take(count), cell),
    decreases agents.len() - count,
{
    if count == agents.len() {
        assert(agents.take(count) =~= agents);
    } else {
        assert(agents.drop_last().take(count) =~= agents.take(count));
        lemma_agent_at_stays(agents.drop_last(), cell, count);
    }
}

/// Whom the flames kill: for each flame that is not stopped by a crate, the
/// first agent standing in it.
pub open spec fn killed_by(
    flames: Seq<TileLocation>,
    objects: Seq<(TileLocation, Object)>,
    agents: Seq<TileLocation>,
) -> Seq<usize>
    decreases flames.len(),
{
    if flames.len() == 0 {
        Seq::empty()
    } else {
        let front = killed_by(flames.drop_last(), objects, agents);
        match agent_at(agents, flames.last()) {
            Some(index) => if flames.len() > 1 && object_at(objects, flames.last()) == Some(
                Object::Crate,
            ) {
                front
            } else {
                front.push(index as usize)
            },
            None => front,
        }
    }
}

/// A coordinate moved by a number of tiles, stopping at the edges.
fn slide(coordinate: usize, by: i32) -> (moved: usize)
    ensures
        moved == slid(coordinate, by),
{
    if by >= 0 {
        match coordinate.checked_add(by as usize) {
            Some(moved) => moved,
            None => usize::MAX,
        }
    } else {
        let back: u32 = if by == i32::MIN {
            2147483648
        } else {
            (-by) as u32
        };
        if coordinate as u64 >= back as u64 {
            coordinate - back as usize
        } else {
            0
        }
    }
}

/// The cell that lies a number of tiles away in a direction, stopping at
/// the edges.
pub fn cell_in(from: TileLocation, direction: Direction, reach: i32) -> (cell: TileLocation)
    requires
        reach > i32::MIN,
    ensures
        cell == cell_towards(from, direction, reach),
{
    match direction {
        Direction::West => TileLocation(slide(from.0, -reach), from.1),
        Direction::North => TileLocation(from.0, slide(from.1, reach)),
        Direction::East => TileLocation(slide(from.0, reach), from.1),
        Direction::South => TileLocation(from.0, slide(from.1, -reach)),
    }
}

/// The first agent standing at a cell.
pub fn find_agent(agents: &Vec<TileLocation>, cell: TileLocation) -> (found: Option<usize>)
    ensures
        match found {
            Some(index) => agent_at(agents@, cell) == Some(index as int),
            None => agent_at(agents@, cell) is None,
        },
{
    let mut i: usize = 0;
    assert(agents@.take(0) =~= Seq::empty());
    while i < agents.len()
        invariant
            i <= agents@.len(),
            agent_at(agents@.take(i as int), cell) is None,
        decreases agents@.len() - i,
    {
        proof {
            assert(agents@.take(i + 1).drop_last() =~= agents@.take(i as int));
        }
        if agents[i] == cell {
            proof {
                lemma_agent_at_stays(agents@, cell, i + 1);
            }
            return Some(i);
        }
        i = i + 1;
    }
    assert(agents@.take(i as int) =~= agents@);
    None
}

/// Whom the flames of an explosion kill.
pub fn victims(
    flames: &Vec<TileLocation>,
    objects: &Vec<(TileLocation, Object)>,
    agents: &Vec<TileLocation>,
) -> (killed: Vec<usize>)
    ensures
        killed@ == killed_by(flames@, objects@, agents@),
{
    let mut killed: Vec<usize> = Vec::new();
    let mut i: usize = 0;
    assert(flames@.take(0) =~= Seq::empty());
    while i < flames.len()
        invariant
            i <= flames@.len(),
            killed@ == killed_by(flames@.take(i as int), objects@, agents@),
        decreases flames@.len() - i,
    {
        proof {
            assert(flames@.take(i + 1).drop_last() =~= flames@.take(i as int));
        }
        let cell = flames[i];
        let taken = i > 0 && match find_object(objects, cell) {
            Some(Object::Crate) => true,
            _ => false,
        };
        if !taken {
            match find_agent(agents, cell) {
                Some(index) => {
                    killed.push(index);
                },
                None => {},
            }
        }
        i = i + 1;
    }
    assert(flames@.take(i as int) =~= flames@);
    killed
}

/// Lets a bomb go off: flames stand on the bomb and run along the four arms
/// until a wall stops them, a crate takes them, or the range ends. Agents
/// standing in flames die.
pub fn explode(
    bomb: TileLocation,
    range: u32,
    tiles: &Vec<(TileLocation, Tile)>,
    objects: &Vec<(TileLocation, Object)>,
    agents: &Vec<TileLocation>,
) -> (explosion: Explosion)
    ensures
        explosion.flames@ == flames_of(bomb, range, tiles@, objects@),
        explosion.killed@ == killed_by(explosion.flames@, objects@, agents@),
{
    let mut flames: Vec<TileLocation> = Vec::new();
    flames.push(bomb);
    let directions = Direction::all();
    let mut d: usize = 0;
    assert(flames@ =~= seq![bomb]);
    while d < 4
        invariant
            d <= 4,
            directions@ == seq![
                Direction::West,
                Direction::North,
                Direction::East,
                Direction::South,
            ],
            flames@ == arms_before(bomb, d as int, range, tiles@, objects@),
        decreases 4 - d,
    {
        let direction = directions[d];
        let ghost before = flames@;
        let mut reach: u32 = 1;
        let mut burning = true;
        assert(before + Seq::<TileLocation>::empty() =~= before);
        while burning && reach <= range && reach <= i32::MAX as u32
            invariant
                1 <= reach,
                reach <= range + 1 || !burning,
                burning ==> before + arm_of(bomb, direction, 1, range, tiles@, objects@) == flames@
                    + arm_of(bomb, direction, reach as int, range, tiles@, objects@),
                !burning ==> flames@ == before + arm_of(
                    bomb,
                    direction,
                    1,
                    range,
                    tiles@,
                    objects@,
                ),
            decreases
                    if burning {
                        range - reach + 1
                    } else {
                        0
                    },
        {
            let cell = cell_in(bomb, direction, reach as i32);
            let tile = find_tile(tiles, cell);
            let wall = match tile {
                Some(Tile::Wall) => true,
                _ => false,
            };
            if wall {
                burning = false;
                assert(arm_of(bomb, direction, reach as int, range, tiles@, objects@)
                    =~= Seq::empty());
                assert(flames@ + Seq::<TileLocation>::empty() =~= flames@);
            } else {
                let ghost so_far = flames@;
                flames.push(cell);
                let stopped = match find_object(objects, cell) {
                    Some(Object::Crate) => true,
                    _ => false,
                };
                if stopped {
                    burning = false;
                    assert(so_far + seq![cell] =~= flames@);
                } else {
                    assert(so_far + (seq![cell] + arm_of(
                        bomb,
                        direction,
                        reach + 1,
                        range,
                        tiles@,
                        objects@,
                    )) =~= flames@ + arm_of(bomb, direction, reach + 1, range, tiles@, objects@));
                    if reach == u32::MAX {
                        burning = false;
                        assert(arm_of(bomb, direction, reach + 1, range, tiles@, objects@)
                            =~= Seq::empty());
                        assert(flames@ + Seq::<TileLocation>::empty() =~= flames@);
                    } else {
                        reach = reach + 1;
                    }
                }
            }
        }
        proof {
            if burning {
                assert(arm_of(bomb, direction, reach as int, range, tiles@, objects@)
                    =~= Seq::empty());
                assert(flames@ + Seq::<TileLocation>::empty() =~= flames@);
            }
        }
        d = d + 1;
    }
    let killed = victims(&flames, objects, agents);
    Explosion { flames, killed }
}

/// The flames of the bomb's cell and of the first `arms` arms of an
/// explosion.
pub open spec fn arms_before(
    bomb: TileLocation,
    arms: int,
    range: u32,
    tiles: Seq<(TileLocation, Tile)>,
    objects: Seq<(TileLocation, Object)>,
) -> Seq<TileLocation> {
    let west = arm_of(bomb, Direction::West, 1, range, tiles, objects);
    let north = arm_of(bomb, Direction::North, 1, range, tiles, objects);
    let east = arm_of(bomb, Direction::East, 1, range, tiles, objects);
    let south = arm_of(bomb, Direction::South, 1, range, tiles, objects);
    if arms <= 0 {
        seq![bomb]
    } else if arms == 1 {
        seq![bomb] + west
    } else if arms == 2 {
        seq![bomb] + west + north
    } else if arms == 3 {
        seq![bomb] + west + north + east
    } else {
        seq![bomb] + west + north + east + south
    }
}

/// What fire does to an object.
pub fn on_fire(object: Object) -> (effect: FireEffect)
    ensures
        effect == match object {
            Object::Bomb { .. } => FireEffect::Explodes,
            Object::Crate => FireEffect::BlowsUp,
            Object::PowerUp(_) => FireEffect::Nothing,
        },
{
    match object {
        Object::Bomb { .. } => FireEffect::Explodes,
        Object::Crate => FireEffect::BlowsUp,
        Object::PowerUp(_) => FireEffect::Nothing,
    }
}

/// Whether a flame stands at a cell.
pub fn is_on_fire(flames: &Vec<TileLocation>, cell: TileLocation) -> (burning: bool)
    ensures
        burning == flames@.contains(cell),
{
    crate::turn::is_occupied(flames, cell)
}

/// What a blown-up crate leaves behind: a power-up if luck has it, of the
/// kind that the roll of a three-sided die picks.
pub fn crate_loot(lucky: bool, kind: u32) -> (loot: Option<PowerUp>)
    requires
        kind <= 2,
    ensures
        loot == if !lucky {
            None
        } else if kind == 0 {
            Some(PowerUp::BombRange)
        } else if kind == 1 {
            Some(PowerUp::SimultaneousBombs)
        } else {
            Some(PowerUp::VisionRange)
        },
{
    if !lucky {
        None
    } else if kind == 0 {
        Some(PowerUp::BombRange)
    } else if kind == 1 {
        Some(PowerUp::SimultaneousBombs)
    } else {
        Some(PowerUp::VisionRange)
    }
}

/// The score of an agent after a world tick: one point more for standing
/// on a hill.
pub fn hill_score(score: u32, standing_on: Option<Tile>) -> (next: u32)
    requires
        score < u32::MAX,
    ensures
        next == if standing_on == Some(Tile::Hill) {
            score + 1
        } else {
            score as int
        },
{
    match standing_on {
        Some(Tile::Hill) => score + 1,
        _ => score,
    }
}

/// Which beat the game is on after a number of beats: player ticks and
/// world ticks take turns, player ticks first.
pub fn tick_kind(counter: u32) -> (tick: Tick)
    ensures
        tick == if counter % 2 == 0 {
            Tick::Player
        } else {
            Tick::World
        },
{
    if counter % 2 == 0 {
        Tick::Player
    } else {
        Tick::World
    }
}

/// Where the winner of a round stands in the list of scores: the last of
/// those with the most points. Nobody wins without a point.
pub open spec fn winner_of(scores: Seq<u32>) -> Option<int>
    decreases scores.len(),
{
    if scores.len() == 0 {
        None
    } else {
        let before = winner_of(scores.drop_last());
        if scores.last() > 0 && (before is None || scores.last() >= scores[before->0]) {
            Some(scores.len() - 1)
        } else {
            before
        }
    }
}

/// The winner has points, nobody has more, and nobody behind the winner
/// has as many; there is none exactly when nobody has a point.
pub proof fn law_winner_has_most_points(scores: Seq<u32>)
    ensures
        match winner_of(scores) {
            Some(index) => {
                &&& 0 <= index < scores.len()
                &&& scores[index] > 0
                &&& forall|i: int| 0 <= i < scores.len() ==> #[trigger] scores[i] <= scores[index]
                &&& forall|i: int| index < i < scores.len() ==> #[trigger] scores[i] < scores[index]
            },
            None => forall|i: int| 0 <= i < scores.len() ==> #[trigger] scores[i] == 0,
        },
    decreases scores.len(),
{
    if scores.len() > 0 {
        law_winner_has_most_points(scores.drop_last());
        let shorter = scores.drop_last();
        match winner_of(shorter) {
            Some(before) => {
                assert(shorter[before] == scores[before]);
                let best = winner_of(scores)->0;
                assert forall|i: int| 0 <= i < scores.len() implies #[trigger] scores[i]
                    <= scores[best] by {
                    if i < shorter.len() {
                        assert(shorter[i] == scores[i]);
                    }
                }
                assert forall|i: int| best < i < scores.len() implies #[trigger] scores[i]
                    < scores[best] by {
                    if i < shorter.len() {
                        assert(shorter[i] == scores[i]);
                    }
                }
            },
            None => {
                assert forall|i: int| 0 <= i < scores.len() - 1 implies #[trigger] scores[i]
                    == 0 by {
                    assert(shorter[i] == scores[i]);
                }
            },
        }
    }
}

/// Who won the round.
pub fn winner(scores: &Vec<u32>) -> (index: Option<usize>)
    ensures
        match index {
            Some(found) => winner_of(scores@) == Some(found as int),
            None => winner_of(scores@) is None,
        },
{
    let mut best: Option<usize> = None;
    let mut i: usize = 0;
    assert(scores@.take(0) =~= Seq::empty());
    while i < scores.len()
        invariant
            i <= scores@.len(),
            match best {
                Some(found) => found < i && winner_of(scores@.take(i as int)) == Some(
                    found as int,
                ),
                None => winner_of(scores@.take(i as int)) is None,
            },
        decreases scores@.len() - i,
    {
        proof {
            assert(scores@.take(i + 1).drop_last() =~= scores@.take(i as int));
        }
        let beats = match best {
            Some(found) => scores[i] >= scores[found],
            None => true,
        };
        if scores[i] > 0 && beats {
            best = Some(i);
        }
        i = i + 1;
    }
    assert(scores@.take(i as int) =~= scores@);
    best
}

/// Whether the first of two agents stands above the second in the
/// standings: it has more points, or as many and comes first in the list.
pub open spec fn above(scores: Seq<u32>, first: int, second: int) -> bool {
    scores[first] > scores[second] || (scores[first] == scores[second] && first < second)
}

/// Whether `order` lists some agents, each once, from the top of the
/// standings down.
pub open spec fn is_ranked(order: Seq<usize>, scores: Seq<u32>) -> bool {
    &&& forall|k: int| 0 <= k < order.len() ==> (#[trigger] order[k]) < scores.len()
    &&& forall|a: int, b: int|
        0 <= a < b < order.len() ==> above(scores, #[trigger] order[a] as int, #[trigger] order[b] as int)
}

/// Whether `order` is the standings: all agents, each once, by falling
/// score, those with equal scores in the order of the list.
pub open spec fn is_standings(order: Seq<usize>, scores: Seq<u32>) -> bool {
    order.len() == scores.len() && is_ranked(order, scores)
}

/// The standings: the places of all agents in the list of scores, by
/// falling score.
pub fn standings(scores: &Vec<u32>) -> (order: Vec<usize>)
    ensures
        is_standings(order@, scores@),
{
    let mut order: Vec<usize> = Vec::new();
    let mut i: usize = 0;
    while i < scores.len()
        invariant
            i <= scores@.len(),
            order@.len() == i,
            is_ranked(order@, scores@),
            forall|k: int| 0 <= k < order@.len() ==> (#[trigger] order@[k]) < i,
        decreases scores@.len() - i,
    {
        let mut place: usize = 0;
        while place < order.len() && scores[order[place]] >= scores[i]
            invariant
                place <= order@.len(),
                i < scores@.len(),
                order@.len() == i,
                is_ranked(order@, scores@),
                forall|k: int| 0 <= k < order@.len() ==> (#[trigger] order@[k]) < i,
                forall|k: int| 0 <= k < place ==> scores@[(#[trigger] order@[k]) as int] >= scores@[i as int],
            decreases order@.len() - place,
        {
            place = place + 1;
        }
        let ghost before = order@;
        order.insert(place, i);
        proof {
            let after = order@;
            assert forall|k: int| 0 <= k < after.len() implies (#[trigger] after[k]) < i + 1 by {
                if k < place {
                    assert(after[k] == before[k]);
                } else if k > place {
                    assert(after[k] == before[k - 1]);
                }
            }
            assert forall|a: int, b: int| 0 <= a < b < after.len() implies above(
                scores@,
                #[trigger] after[a] as int,
                #[trigger] after[b] as int,
            ) by {
                if b < place {
                    assert(after[a] == before[a] && after[b] == before[b]);
                } else if b == place {
                    assert(after[a] == before[a]);
                    assert(before[a] < i);
                } else if a < place {
                    assert(after[a] == before[a] && after[b] == before[b - 1]);
                } else if a == place {
                    assert(after[b] == before[b - 1]);
                    if place < before.len() {
                        assert(scores@[before[place as int] as int] < scores@[i as int]);
                        if b - 1 > place {
                            assert(above(
                                scores@,
                                before[place as int] as int,
                                before[b - 1] as int,
                            ));
                        }
                    }
                } else {
                    assert(after[a] == before[a - 1] && after[b] == before[b - 1]);
                }
            }
        }
        i = i + 1;
    }
    order
}

/// The standings name every agent: as many places as agents, no place
/// twice.
pub proof fn law_standings_name_each_once(order: Seq<usize>, scores: Seq<u32>)
    requires
        is_standings(order, scores),
    ensures
        forall|a: int, b: int| 0 <= a < b < order.len() ==> order[a] != order[b],
{
    assert forall|a: int, b: int| 0 <= a < b < order.len() implies order[a] != order[b] by {
        assert(above(scores, order[a] as int, order[b] as int));
    }
}

/// The picture of a walking character at a step of its cycle of eight.
pub open spec fn sprite_at(direction: Direction, step: int) -> int {
    let base: int = match direction {
        Direction::West => 15,
        Direction::North => 10,
        Direction::East => 5,
        Direction::South => 0,
    };
    let swing: int = if step == 0 || step == 4 {
        2
    } else if step == 1 || step == 3 {
        3
    } else if step == 2 {
        4
    } else if step == 5 || step == 7 {
        1
    } else {
        0
    };
    base + swing
}

/// What a character is doing, for the pictures shown of it.
#[derive(Copy, Clone, Debug, PartialEq, Eq, Structural)]
pub enum AnimationState {
    StandingStill,
    /// Walking in a direction, at a step of the cycle of pictures.
    Walking(Direction, usize),
}

impl AnimationState {
    /// Moves a walking character one step on in its cycle, and gives the
    /// picture to show. A character standing still faces south.
    pub fn next_sprite(&mut self) -> (sprite: usize)
        ensures
            match *old(self) {
                AnimationState::StandingStill => sprite == 2 && *final(self) == *old(self),
                AnimationState::Walking(direction, step) => {
                    &&& *final(self) == AnimationState::Walking(
                        direction,
                        ((step + 1) % 8) as usize,
                    )
                    &&& sprite == sprite_at(direction, (step + 1) % 8)
                },
            },
    {
        match *self {
            AnimationState::StandingStill => 2,
            AnimationState::Walking(direction, step) => {
                let next = (step % 8 + 1) % 8;
                *self = AnimationState::Walking(direction, next);
                let base: usize = match direction {
                    Direction::West => 15,
                    Direction::North => 10,
                    Direction::East => 5,
                    Direction::South => 0,
                };
                let swing: usize = if next == 0 || next == 4 {
                    2
                } else if next == 1 || next == 3 {
                    3
                } else if next == 2 {
                    4
                } else if next == 5 || next == 7 {
                    1
                } else {
                    0
                };
                base + swing
            },
        }
    }
}

} // verus!
