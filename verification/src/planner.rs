//! A player that plans a few turns ahead: it follows every sequence of
//! actions as far as it can foresee, keeps the ones it survives, and picks
//! the most promising.

use crate::player::Player;
use crate::world::{
    magnitude, sighting_view, sightings_view, Action, Direction, LastTurnResult, Object,
    Sighting, SightingView, Ticks, Tile, TileOffset,
};
use vstd::prelude::*;

verus! {

/// Two more questions one can ask of an offset.
pub trait TileOffsetExt: Sized {
    /// Whether the offset is the tile right north of the origin.
    fn is_here(&self) -> bool;

    /// The four offsets next to this one: east, north, west, south.
    fn adjacents(&self) -> [Self; 4];
}

impl TileOffsetExt for TileOffset {
    fn is_here(&self) -> (here: bool)
        ensures
            here == (self.0 == 0 && self.1 == 1),
    {
        self.0 == 0 && self.1 == 1
    }

    fn adjacents(&self) -> (neighbours: [TileOffset; 4])
        ensures
            neighbours@ == seq![
                self.wrapped_add(TileOffset(1, 0)),
                self.wrapped_add(TileOffset(0, 1)),
                self.wrapped_sub(TileOffset(1, 0)),
                self.wrapped_sub(TileOffset(0, 1)),
            ],
    {
        let neighbours = [
            self.wrapping_add(TileOffset(1, 0)),
            self.wrapping_add(TileOffset(0, 1)),
            self.wrapping_sub(TileOffset(1, 0)),
            self.wrapping_sub(TileOffset(0, 1)),
        ];
        assert(neighbours@ =~= seq![
            self.wrapped_add(TileOffset(1, 0)),
            self.wrapped_add(TileOffset(0, 1)),
            self.wrapped_sub(TileOffset(1, 0)),
            self.wrapped_sub(TileOffset(0, 1)),
        ]);
        neighbours
    }
}

/// Two tiles are neither in one row nor in one column.
#[derive(Copy, Clone, Debug, PartialEq, Eq, Structural)]
pub struct NotOrthogonal;

/// The smaller of two integers.
pub open spec fn smaller(x: int, y: int) -> int {
    if x < y {
        x
    } else {
        y
    }
}

/// How many tiles lie strictly between two coordinates.
pub open spec fn gap(from: int, to: int) -> nat {
    if magnitude(from - to) <= 1 {
        0
    } else {
        (magnitude(from - to) - 1) as nat
    }
}

/// The tiles strictly between two tiles of one column or one row, counted
/// from the smaller coordinate up; `None` for tiles that share neither.
pub open spec fn tiles_between_of(source: TileOffset, target: TileOffset) -> Option<
    Seq<TileOffset>,
> {
    if source.0 == target.0 {
        Some(
            Seq::new(
                gap(source.1 as int, target.1 as int),
                |i: int| TileOffset(source.0, (smaller(source.1 as int, target.1 as int) + 1 + i) as i32),
            ),
        )
    } else if source.1 == target.1 {
        Some(
            Seq::new(
                gap(source.0 as int, target.0 as int),
                |i: int| TileOffset((smaller(source.0 as int, target.0 as int) + 1 + i) as i32, source.1),
            ),
        )
    } else {
        None
    }
}

/// The coordinates strictly between two coordinates, in rising order.
fn between(from: i32, to: i32) -> (steps: Vec<i32>)
    ensures
        steps@.len() == gap(from as int, to as int),
        forall|i: int|
            0 <= i < steps@.len() ==> steps@[i] == smaller(from as int, to as int) + 1 + i,
{
    let low = if from < to {
        from
    } else {
        to
    };
    let high = if from < to {
        to
    } else {
        from
    };
    let mut steps: Vec<i32> = Vec::new();
    if low == high {
        return steps;
    }
    let mut next: i32 = low + 1;
    while next < high
        invariant
            low < next <= high,
            low == smaller(from as int, to as int),
            high - low == magnitude(from - to),
            steps@.len() == next - low - 1,
            forall|i: int| 0 <= i < steps@.len() ==> steps@[i] == low + 1 + i,
        decreases high - next,
    {
        steps.push(next);
        next = next + 1;
    }
    steps
}

/// The tiles strictly between two tiles that share a column or a row.
pub fn tiles_between(source: TileOffset, target: TileOffset) -> (tiles: Result<
    Vec<TileOffset>,
    NotOrthogonal,
>)
    ensures
        match tiles_between_of(source, target) {
            Some(between) => tiles matches Ok(found) && found@ == between,
            None => tiles == Err::<Vec<TileOffset>, NotOrthogonal>(NotOrthogonal),
        },
{
    if source.0 == target.0 {
        let steps = between(source.1, target.1);
        let mut tiles: Vec<TileOffset> = Vec::new();
        let mut i: usize = 0;
        while i < steps.len()
            invariant
                i <= steps@.len(),
                tiles@.len() == i,
                forall|j: int| 0 <= j < i ==> tiles@[j] == TileOffset(source.0, steps@[j]),
            decreases steps@.len() - i,
        {
            tiles.push(TileOffset(source.0, steps[i]));
            i = i + 1;
        }
        assert(tiles@ =~= tiles_between_of(source, target)->0);
        Ok(tiles)
    } else if source.1 == target.1 {
        let steps = between(source.0, target.0);
        let mut tiles: Vec<TileOffset> = Vec::new();
        let mut i: usize = 0;
        while i < steps.len()
            invariant
                i <= steps@.len(),
                tiles@.len() == i,
                forall|j: int| 0 <= j < i ==> tiles@[j] == TileOffset(steps@[j], source.1),
            decreases steps@.len() - i,
        {
            tiles.push(TileOffset(steps[i], source.1));
            i = i + 1;
        }
        assert(tiles@ =~= tiles_between_of(source, target)->0);
        Ok(tiles)
    } else {
        Err(NotOrthogonal)
    }
}

/// A ticking bomb in sight: its fuse, its range, and where it lies.
pub type Bomb = (Ticks, u32, TileOffset);

/// The fuse that the planner gives to bombs it plans to drop.
pub const PLANNED_FUSE: u32 = 2;

/// The range that the planner gives to bombs it plans to drop.
pub const PLANNED_RANGE: u32 = 3;

/// Whether an offset is the place where the player stands.
pub open spec fn is_origin(offset: TileOffset) -> bool {
    offset.0 == 0 && offset.1 == 0
}

/// One step in a direction.
pub open spec fn step_of(direction: Direction) -> TileOffset {
    match direction {
        Direction::West => TileOffset(-1i32, 0),
        Direction::North => TileOffset(0, 1),
        Direction::East => TileOffset(1, 0),
        Direction::South => TileOffset(0, -1i32),
    }
}

/// Where the player stands after an action, seen from where it stood.
pub open spec fn destination(action: Action) -> TileOffset {
    match action {
        Action::Move(direction) => step_of(direction),
        Action::DropBombAndMove(direction) => step_of(direction),
        _ => TileOffset(0, 0),
    }
}

/// Whether an action leaves a bomb behind.
pub open spec fn drops_bomb(action: Action) -> bool {
    action is DropBomb || action is DropBombAndMove
}

/// What a sighting becomes right after the player acted: a dropped bomb
/// lies where the player stood unless something lay there already, and
/// everything is seen from where the player stands now.
pub open spec fn acted_on(sighting: SightingView, action: Action) -> SightingView {
    (
        sighting.0,
        if drops_bomb(action) && is_origin(sighting.3) {
            Some(
                match sighting.1 {
                    Some(object) => object,
                    None => Object::Bomb {
                        fuse_remaining: Ticks(PLANNED_FUSE),
                        range: PLANNED_RANGE,
                    },
                },
            )
        } else {
            sighting.1
        },
        sighting.2,
        sighting.3.wrapped_sub(destination(action)),
    )
}

/// What a view becomes right after the player acted.
pub open spec fn after_action(view: Seq<SightingView>, action: Action) -> Seq<SightingView> {
    Seq::new(view.len(), |i: int| acted_on(view[i], action))
}

/// The bombs in a view, in the order of the view.
pub open spec fn bombs_of(view: Seq<SightingView>) -> Seq<Bomb>
    decreases view.len(),
{
    if view.len() == 0 {
        Seq::empty()
    } else {
        let front = bombs_of(view.drop_last());
        match view.last().1 {
            Some(Object::Bomb { fuse_remaining, range }) => front.push(
                (fuse_remaining, range, view.last().3),
            ),
            _ => front,
        }
    }
}

/// Whether a tile can be walked on: no wall, nothing solid on it, nobody on
/// it.
pub open spec fn walkable(sighting: SightingView) -> bool {
    &&& !(sighting.1 matches Some(object) && object.solid())
    &&& sighting.2 is None
    &&& sighting.0 != Tile::Wall
}

/// Where the walkable tiles of a view lie, in the order of the view.
pub open spec fn empty_tiles_of(view: Seq<SightingView>) -> Seq<TileOffset>
    decreases view.len(),
{
    if view.len() == 0 {
        Seq::empty()
    } else {
        let front = empty_tiles_of(view.drop_last());
        if walkable(view.last()) {
            front.push(view.last().3)
        } else {
            front
        }
    }
}

/// Whether a bomb reaches a position: both lie in one row or column, no
/// more tiles lie between them than the bomb's range, and all of those are
/// empty.
pub open spec fn in_range(
    position: TileOffset,
    bomb_position: TileOffset,
    bomb_range: u32,
    empty_tiles: Seq<TileOffset>,
) -> bool {
    match tiles_between_of(position, bomb_position) {
        Some(tiles) => tiles.len() <= bomb_range && forall|i: int|
            0 <= i < tiles.len() ==> empty_tiles.contains(#[trigger] tiles[i]),
        None => false,
    }
}

/// Whether one of the bombs reaches a position.
pub open spec fn reached(position: TileOffset, bombs: Seq<Bomb>, empty_tiles: Seq<TileOffset>) -> bool {
    exists|i: int|
        0 <= i < bombs.len() && in_range(
            position,
            (#[trigger] bombs[i]).2,
            bombs[i].1,
            empty_tiles,
        )
}

/// Whether a bomb lies at a position.
pub open spec fn lies_at(bombs: Seq<Bomb>, position: TileOffset) -> bool {
    exists|i: int| 0 <= i < bombs.len() && (#[trigger] bombs[i]).2 == position
}

/// The bombs that exploding bombs set off: those that are reached by one of
/// them and do not lie where one of them lies, in the order of `bombs`.
pub open spec fn set_off(exploding: Seq<Bomb>, bombs: Seq<Bomb>, empty_tiles: Seq<TileOffset>) -> Seq<
    Bomb,
>
    decreases bombs.len(),
{
    if bombs.len() == 0 {
        Seq::empty()
    } else {
        let front = set_off(exploding, bombs.drop_last(), empty_tiles);
        if !lies_at(exploding, bombs.last().2) && reached(bombs.last().2, exploding, empty_tiles) {
            front.push(bombs.last())
        } else {
            front
        }
    }
}

/// The exploding bombs after at most `rounds` rounds of setting each other
/// off, in the order in which they go off.
pub open spec fn chain(
    exploding: Seq<Bomb>,
    bombs: Seq<Bomb>,
    empty_tiles: Seq<TileOffset>,
    rounds: nat,
) -> Seq<Bomb>
    decreases rounds,
{
    if rounds == 0 {
        exploding
    } else {
        let more = set_off(exploding, bombs, empty_tiles);
        if more.len() == 0 {
            exploding
        } else {
            chain(exploding + more, bombs, empty_tiles, (rounds - 1) as nat)
        }
    }
}

/// How many of the bombs lie where none of the exploding bombs lies.
pub open spec fn untouched(exploding: Seq<Bomb>, bombs: Seq<Bomb>) -> nat
    decreases bombs.len(),
{
    if bombs.len() == 0 {
        0
    } else {
        untouched(exploding, bombs.drop_last()) + if lies_at(exploding, bombs.last().2) {
            0nat
        } else {
            1nat
        }
    }
}

/// Every bomb that is set off is one of the bombs, and lies where none of
/// the exploding bombs lies.
pub proof fn lemma_set_off_members(
    exploding: Seq<Bomb>,
    bombs: Seq<Bomb>,
    empty_tiles: Seq<TileOffset>,
)
    ensures
        forall|k: int|
            0 <= k < set_off(exploding, bombs, empty_tiles).len() ==> bombs.contains(
                #[trigger] set_off(exploding, bombs, empty_tiles)[k],
            ) && !lies_at(exploding, set_off(exploding, bombs, empty_tiles)[k].2),
    decreases bombs.len(),
{
    if bombs.len() > 0 {
        let shorter = bombs.drop_last();
        lemma_set_off_members(exploding, shorter, empty_tiles);
        let front = set_off(exploding, shorter, empty_tiles);
        let whole = set_off(exploding, bombs, empty_tiles);
        assert forall|k: int| 0 <= k < whole.len() implies bombs.contains(#[trigger] whole[k])
            && !lies_at(exploding, whole[k].2) by {
            if k < front.len() {
                assert(whole[k] == front[k]);
                let w = choose|w: int| 0 <= w < shorter.len() && shorter[w] == front[k];
                assert(bombs[w] == whole[k]);
            } else {
                assert(bombs[bombs.len() - 1] == whole[k]);
            }
        }
    }
}

/// Where more bombs explode, no more bombs are untouched; and fewer are
/// where one of the bombs is newly touched.
pub proof fn lemma_untouched_shrinks(exploding: Seq<Bomb>, more: Seq<Bomb>, bombs: Seq<Bomb>)
    ensures
        untouched(exploding + more, bombs) <= untouched(exploding, bombs),
        (exists|i: int|
            0 <= i < bombs.len() && !lies_at(exploding, (#[trigger] bombs[i]).2) && lies_at(
                exploding + more,
                bombs[i].2,
            )) ==> untouched(exploding + more, bombs) < untouched(exploding, bombs),
        untouched(exploding, bombs) <= bombs.len(),
    decreases bombs.len(),
{
    if bombs.len() > 0 {
        let shorter = bombs.drop_last();
        lemma_untouched_shrinks(exploding, more, shorter);
        let position = bombs.last().2;
        if lies_at(exploding, position) {
            let w = choose|w: int| 0 <= w < exploding.len() && (#[trigger] exploding[w]).2 == position;
            assert((exploding + more)[w].2 == position);
        }
        if exists|i: int|
            0 <= i < bombs.len() && !lies_at(exploding, (#[trigger] bombs[i]).2) && lies_at(
                exploding + more,
                bombs[i].2,
            ) {
            let i = choose|i: int|
                0 <= i < bombs.len() && !lies_at(exploding, (#[trigger] bombs[i]).2) && lies_at(
                    exploding + more,
                    bombs[i].2,
                );
            if i < shorter.len() {
                assert(shorter[i] == bombs[i]);
            }
        }
    }
}

/// When the chain of explosions has run for as many rounds as there are
/// bombs and one more, it has come to rest: the bombs that have gone off set
/// off no further bomb.
pub proof fn law_explosions_come_to_rest(
    exploding: Seq<Bomb>,
    bombs: Seq<Bomb>,
    empty_tiles: Seq<TileOffset>,
    rounds: nat,
)
    requires
        untouched(exploding, bombs) < rounds,
    ensures
        set_off(chain(exploding, bombs, empty_tiles, rounds), bombs, empty_tiles).len() == 0,
    decreases rounds,
{
    let more = set_off(exploding, bombs, empty_tiles);
    if more.len() > 0 {
        lemma_set_off_members(exploding, bombs, empty_tiles);
        lemma_untouched_shrinks(exploding, more, bombs);
        let first = more[0];
        assert(bombs.contains(first) && !lies_at(exploding, first.2));
        let i = choose|i: int| 0 <= i < bombs.len() && bombs[i] == first;
        assert((exploding + more)[exploding.len() as int] == first);
        assert(lies_at(exploding + more, bombs[i].2));
        law_explosions_come_to_rest(exploding + more, bombs, empty_tiles, (rounds - 1) as nat);
    }
}

/// The bombs of a view that go off in a turn set off no bomb that has not
/// gone off with them.
pub proof fn law_all_explosions_are_seen(view: Seq<SightingView>)
    ensures
        set_off(exploding_in(view), bombs_of(view), empty_tiles_of(view)).len() == 0,
{
    let bombs = bombs_of(view);
    lemma_untouched_shrinks(due(bombs), Seq::empty(), bombs);
    law_explosions_come_to_rest(due(bombs), bombs, empty_tiles_of(view), bombs.len() + 1);
}

/// The bombs whose fuse has run out, in the order of `bombs`.
pub open spec fn due(bombs: Seq<Bomb>) -> Seq<Bomb>
    decreases bombs.len(),
{
    if bombs.len() == 0 {
        Seq::empty()
    } else {
        let front = due(bombs.drop_last());
        if bombs.last().0.0 == 0 {
            front.push(bombs.last())
        } else {
            front
        }
    }
}

/// All the bombs of a view that go off this turn.
pub open spec fn exploding_in(view: Seq<SightingView>) -> Seq<Bomb> {
    chain(due(bombs_of(view)), bombs_of(view), empty_tiles_of(view), bombs_of(view).len() + 1)
}

/// What a sighting becomes when the turn is over: bombs that went off are
/// gone, the others tick down, and crates reached by an explosion are gone.
pub open spec fn settled(
    sighting: SightingView,
    exploding: Seq<Bomb>,
    empty_tiles: Seq<TileOffset>,
) -> SightingView {
    match sighting.1 {
        Some(Object::Bomb { fuse_remaining, range }) => if lies_at(exploding, sighting.3) {
            (sighting.0, None, sighting.2, sighting.3)
        } else {
            (
                sighting.0,
                Some(
                    Object::Bomb {
                        fuse_remaining: Ticks(
                            if fuse_remaining.0 == 0 {
                                0
                            } else {
                                (fuse_remaining.0 - 1) as u32
                            },
                        ),
                        range,
                    },
                ),
                sighting.2,
                sighting.3,
            )
        },
        Some(Object::Crate) => if reached(sighting.3, exploding, empty_tiles) {
            (sighting.0, None, sighting.2, sighting.3)
        } else {
            sighting
        },
        _ => sighting,
    }
}

/// What the player expects to see next turn if it takes an action now;
/// `None` if it expects not to live to see it: the tile it would stand on
/// is not walkable, or an explosion reaches it.
pub open spec fn simulated(view: Seq<SightingView>, action: Action) -> Option<Seq<SightingView>> {
    let moved = after_action(view, action);
    let empty_tiles = empty_tiles_of(moved);
    let exploding = exploding_in(moved);
    if empty_tiles.contains(TileOffset(0, 0)) && !reached(
        TileOffset(0, 0),
        exploding,
        empty_tiles,
    ) {
        Some(Seq::new(moved.len(), |i: int| settled(moved[i], exploding, empty_tiles)))
    } else {
        None
    }
}

/// A copy of a sighting.
pub fn copy_sighting(sighting: &Sighting) -> (copy: Sighting)
    ensures
        copy == *sighting,
{
    (
        sighting.0,
        sighting.1,
        match &sighting.2 {
            Some(enemy) => Some(enemy.clone()),
            None => None,
        },
        sighting.3,
    )
}

/// A copy of a view.
pub fn copy_view(view: &Vec<Sighting>) -> (copy: Vec<Sighting>)
    ensures
        copy@ == view@,
{
    let mut copy: Vec<Sighting> = Vec::new();
    let mut i: usize = 0;
    while i < view.len()
        invariant
            i <= view@.len(),
            copy@ == view@.take(i as int),
        decreases view@.len() - i,
    {
        copy.push(copy_sighting(&view[i]));
        i = i + 1;
        assert(copy@ =~= view@.take(i as int));
    }
    assert(view@.take(i as int) =~= view@);
    copy
}

/// The bombs in sight.
pub fn bombs(surroundings: &Vec<Sighting>) -> (found: Vec<Bomb>)
    ensures
        found@ == bombs_of(sightings_view(surroundings@)),
{
    let ghost view = sightings_view(surroundings@);
    let mut found: Vec<Bomb> = Vec::new();
    let mut i: usize = 0;
    while i < surroundings.len()
        invariant
            i <= surroundings@.len(),
            view == sightings_view(surroundings@),
            found@ == bombs_of(view.take(i as int)),
        decreases surroundings@.len() - i,
    {
        proof {
            assert(view.take(i + 1).drop_last() =~= view.take(i as int));
        }
        match surroundings[i].1 {
            Some(Object::Bomb { fuse_remaining, range }) => {
                found.push((fuse_remaining, range, surroundings[i].3));
            },
            _ => {},
        }
        i = i + 1;
    }
    assert(view.take(i as int) =~= view);
    found
}

/// Where the walkable tiles in sight lie.
pub fn empty_tiles(surroundings: &Vec<Sighting>) -> (found: Vec<TileOffset>)
    ensures
        found@ == empty_tiles_of(sightings_view(surroundings@)),
{
    let ghost view = sightings_view(surroundings@);
    let mut found: Vec<TileOffset> = Vec::new();
    let mut i: usize = 0;
    while i < surroundings.len()
        invariant
            i <= surroundings@.len(),
            view == sightings_view(surroundings@),
            found@ == empty_tiles_of(view.take(i as int)),
        decreases surroundings@.len() - i,
    {
        proof {
            assert(view.take(i + 1).drop_last() =~= view.take(i as int));
        }
        let sighting = &surroundings[i];
        let solid = match sighting.1 {
            Some(object) => object.is_solid(),
            None => false,
        };
        let wall = match sighting.0 {
            Tile::Wall => true,
            _ => false,
        };
        if !solid && sighting.2.is_none() && !wall {
            found.push(sighting.3);
        }
        i = i + 1;
    }
    assert(view.take(i as int) =~= view);
    found
}

/// Whether a list of offsets holds an offset.
pub fn holds(offsets: &Vec<TileOffset>, offset: TileOffset) -> (found: bool)
    ensures
        found == offsets@.contains(offset),
{
    let mut i: usize = 0;
    while i < offsets.len()
        invariant
            i <= offsets@.len(),
            forall|j: int| 0 <= j < i ==> offsets@[j] != offset,
        decreases offsets@.len() - i,
    {
        if offsets[i] == offset {
            return true;
        }
        i = i + 1;
    }
    false
}

/// Whether a bomb reaches a position.
pub fn in_range_of_bomb(
    position: TileOffset,
    bomb_position: TileOffset,
    bomb_range: u32,
    empty_tiles: &Vec<TileOffset>,
) -> (reaches: bool)
    ensures
        reaches == in_range(position, bomb_position, bomb_range, empty_tiles@),
{
    if position.0 != bomb_position.0 && position.1 != bomb_position.1 {
        return false;
    }
    let apart: i64 = if position.0 == bomb_position.0 {
        position.1 as i64 - bomb_position.1 as i64
    } else {
        position.0 as i64 - bomb_position.0 as i64
    };
    if apart > bomb_range as i64 + 1 || -apart > bomb_range as i64 + 1 {
        return false;
    }
    match tiles_between(position, bomb_position) {
        Ok(tiles) => {
            let mut i: usize = 0;
            while i < tiles.len()
                invariant
                    i <= tiles@.len(),
                    tiles_between_of(position, bomb_position) == Some(tiles@),
                    tiles@.len() <= bomb_range,
                    forall|j: int| 0 <= j < i ==> empty_tiles@.contains(#[trigger] tiles@[j]),
                decreases tiles@.len() - i,
            {
                if !holds(empty_tiles, tiles[i]) {
                    return false;
                }
                i = i + 1;
            }
            true
        },
        Err(_) => false,
    }
}

/// Whether one of the bombs reaches a position.
pub fn is_reached(position: TileOffset, bombs: &Vec<Bomb>, empty_tiles: &Vec<TileOffset>) -> (hit:
    bool)
    ensures
        hit == reached(position, bombs@, empty_tiles@),
{
    let mut i: usize = 0;
    while i < bombs.len()
        invariant
            i <= bombs@.len(),
            forall|j: int|
                0 <= j < i ==> !in_range(
                    position,
                    (#[trigger] bombs@[j]).2,
                    bombs@[j].1,
                    empty_tiles@,
                ),
        decreases bombs@.len() - i,
    {
        if in_range_of_bomb(position, bombs[i].2, bombs[i].1, empty_tiles) {
            return true;
        }
        i = i + 1;
    }
    false
}

/// Whether one of the bombs lies at a position.
pub fn bomb_lies_at(bombs: &Vec<Bomb>, position: TileOffset) -> (found: bool)
    ensures
        found == lies_at(bombs@, position),
{
    let mut i: usize = 0;
    while i < bombs.len()
        invariant
            i <= bombs@.len(),
            forall|j: int| 0 <= j < i ==> (#[trigger] bombs@[j]).2 != position,
        decreases bombs@.len() - i,
    {
        if bombs[i].2 == position {
            return true;
        }
        i = i + 1;
    }
    false
}

/// Adds to the bombs about to explode all the bombs that they set off, and
/// those that these set off in turn, round by round until none is left to be
/// set off.
pub fn iterative_explosions(
    bombs_about_to_explode: &mut Vec<Bomb>,
    bombs: &Vec<Bomb>,
    empty_tiles: &Vec<TileOffset>,
)
    ensures
        final(bombs_about_to_explode)@ == chain(
            old(bombs_about_to_explode)@,
            bombs@,
            empty_tiles@,
            bombs@.len() + 1,
        ),
{
    let mut left: usize = bombs.len();
    loop
        invariant
            left <= bombs@.len(),
            chain(old(bombs_about_to_explode)@, bombs@, empty_tiles@, bombs@.len() + 1) == chain(
                bombs_about_to_explode@,
                bombs@,
                empty_tiles@,
                (left + 1) as nat,
            ),
        decreases left,
    {
        let mut more: Vec<Bomb> = Vec::new();
        let mut i: usize = 0;
        while i < bombs.len()
            invariant
                i <= bombs@.len(),
                more@ == set_off(bombs_about_to_explode@, bombs@.take(i as int), empty_tiles@),
            decreases bombs@.len() - i,
        {
            proof {
                assert(bombs@.take(i + 1).drop_last() =~= bombs@.take(i as int));
            }
            let bomb = bombs[i];
            if !bomb_lies_at(bombs_about_to_explode, bomb.2) && is_reached(
                bomb.2,
                bombs_about_to_explode,
                empty_tiles,
            ) {
                more.push(bomb);
            }
            i = i + 1;
        }
        assert(bombs@.take(i as int) =~= bombs@);
        if more.len() == 0 {
            return ;
        }
        let ghost before = bombs_about_to_explode@;
        let mut k: usize = 0;
        while k < more.len()
            invariant
                k <= more@.len(),
                bombs_about_to_explode@ == before + more@.take(k as int),
            decreases more@.len() - k,
        {
            bombs_about_to_explode.push(more[k]);
            k = k + 1;
            assert(bombs_about_to_explode@ =~= before + more@.take(k as int));
        }
        assert(more@.take(k as int) =~= more@);
        if left == 0 {
            proof {
                reveal_with_fuel(chain, 2);
            }
            return ;
        }
        left = left - 1;
    }
}

/// How many turns the planner looks ahead, beyond the one it is about to
/// take.
pub const TURN_LOOKAHEAD: usize = 3;

/// What the player expects of a turn.
pub struct SimulatedTurn {
    /// What it expects to see next turn. If none, it means you died :(
    pub next_turn_surroundings: Option<Vec<Sighting>>,
}

/// A sequence of actions that the player survives as far as it can foresee:
/// the action to take now, and what it expects to see when all is done.
pub struct MultiTurnPlan {
    pub first_action: Action,
    pub final_surroundings: Vec<Sighting>,
}

/// A plan as a mathematical value.
pub type PlanView = (Action, Seq<SightingView>);

/// The player that plans ahead. It remembers where it has been, and would
/// rather go somewhere new.
pub struct Bomber {
    pub boring_tiles: Vec<TileOffset>,
}

impl View for MultiTurnPlan {
    type V = PlanView;

    open spec fn view(&self) -> PlanView {
        (self.first_action, sightings_view(self.final_surroundings@))
    }
}

/// The plans of a list as mathematical values.
pub open spec fn plans_view(plans: Seq<MultiTurnPlan>) -> Seq<PlanView> {
    Seq::new(plans.len(), |i: int| plans[i]@)
}

/// Every action there is, bombing moves first.
pub open spec fn every_action() -> Seq<Action> {
    seq![
        Action::DropBombAndMove(Direction::East),
        Action::DropBombAndMove(Direction::North),
        Action::DropBombAndMove(Direction::South),
        Action::DropBombAndMove(Direction::West),
        Action::Move(Direction::East),
        Action::Move(Direction::North),
        Action::Move(Direction::South),
        Action::Move(Direction::West),
        Action::StayStill,
        Action::DropBomb,
    ]
}

/// The plans of one turn: one for each of the given actions that the player
/// survives, but for dropping a bomb and standing on it.
pub open spec fn opening_plans(view: Seq<SightingView>, actions: Seq<Action>) -> Seq<PlanView>
    decreases actions.len(),
{
    if actions.len() == 0 {
        Seq::empty()
    } else {
        let front = opening_plans(view, actions.drop_last());
        let action = actions.last();
        match simulated(view, action) {
            Some(next) => if action != Action::DropBomb {
                front.push((action, next))
            } else {
                front
            },
            None => front,
        }
    }
}

/// The ways to go on with a plan for one more turn: one for each of the
/// given actions that the player survives.
pub open spec fn continuations(plan: PlanView, actions: Seq<Action>) -> Seq<PlanView>
    decreases actions.len(),
{
    if actions.len() == 0 {
        Seq::empty()
    } else {
        let front = continuations(plan, actions.drop_last());
        match simulated(plan.1, actions.last()) {
            Some(next) => front.push((plan.0, next)),
            None => front,
        }
    }
}

/// All the ways to go on with any of the plans for one more turn.
pub open spec fn continued(plans: Seq<PlanView>) -> Seq<PlanView>
    decreases plans.len(),
{
    if plans.len() == 0 {
        Seq::empty()
    } else {
        continued(plans.drop_last()) + continuations(plans.last(), every_action())
    }
}

/// The plans after looking a number of turns further ahead.
pub open spec fn lookahead(plans: Seq<PlanView>, turns: nat) -> Seq<PlanView>
    decreases turns,
{
    if turns == 0 {
        plans
    } else {
        lookahead(continued(plans), (turns - 1) as nat)
    }
}

/// All the plans that the player survives, as far as it can foresee.
pub open spec fn plans_of(view: Seq<SightingView>) -> Seq<PlanView> {
    lookahead(opening_plans(view, every_action()), TURN_LOOKAHEAD as nat)
}

/// The terrain of the first tile of a view that lies where the player
/// stands.
pub open spec fn origin_tile(view: Seq<SightingView>) -> Option<Tile>
    decreases view.len(),
{
    if view.len() == 0 {
        None
    } else if is_origin(view[0].3) {
        Some(view[0].0)
    } else {
        origin_tile(view.drop_first())
    }
}

/// Whether a power-up lies on a tile.
pub open spec fn holds_power_up(sighting: SightingView) -> bool {
    sighting.1 matches Some(Object::PowerUp(_))
}

/// Whether a view shows a power-up at an offset.
pub open spec fn power_up_at(view: Seq<SightingView>, offset: TileOffset) -> bool {
    exists|i: int|
        0 <= i < view.len() && holds_power_up(#[trigger] view[i]) && view[i].3 == offset
}

/// Whether a view shows a tile where the player stands that is no hill.
pub open spec fn stands_off_hill(view: Seq<SightingView>) -> bool {
    exists|i: int| 0 <= i < view.len() && is_origin((#[trigger] view[i]).3) && view[i].0 != Tile::Hill
}

/// How little a plan promises: the smaller, the better. Most of all the
/// player wants a power-up on its next step, then to end up on a hill, then
/// to step somewhere new, and last to drop a bomb.
pub open spec fn rank(plan: PlanView, boring: Seq<TileOffset>, view: Seq<SightingView>) -> nat {
    let no_power_up: nat = if power_up_at(view, destination(plan.0)) {
        0
    } else {
        8
    };
    let no_hill: nat = if origin_tile(plan.1) == Some(Tile::Hill) {
        0
    } else {
        4
    };
    let is_boring: nat = if boring.contains(destination(plan.0)) {
        2
    } else {
        0
    };
    let no_bomb: nat = if drops_bomb(plan.0) {
        0
    } else {
        1
    };
    no_power_up + no_hill + is_boring + no_bomb
}

/// Where the best plan stands in a list of plans: the first of those that
/// promise most. Minus one for an empty list.
pub open spec fn best_plan(plans: Seq<PlanView>, boring: Seq<TileOffset>, view: Seq<SightingView>) -> int
    decreases plans.len(),
{
    if plans.len() == 0 {
        -1
    } else {
        let before = best_plan(plans.drop_last(), boring, view);
        if before < 0 || rank(plans.last(), boring, view) < rank(plans[before], boring, view) {
            plans.len() - 1
        } else {
            before
        }
    }
}

/// The best plan is a plan of the list, no plan promises more, and no plan
/// before it promises as much.
pub proof fn lemma_best_plan(plans: Seq<PlanView>, boring: Seq<TileOffset>, view: Seq<SightingView>)
    ensures
        plans.len() == 0 ==> best_plan(plans, boring, view) == -1,
        plans.len() > 0 ==> 0 <= best_plan(plans, boring, view) < plans.len(),
        forall|i: int|
            0 <= i < plans.len() ==> rank(plans[best_plan(plans, boring, view)], boring, view)
                <= rank(#[trigger] plans[i], boring, view),
        forall|i: int|
            0 <= i < best_plan(plans, boring, view) ==> rank(
                plans[best_plan(plans, boring, view)],
                boring,
                view,
            ) < rank(#[trigger] plans[i], boring, view),
    decreases plans.len(),
{
    if plans.len() > 0 {
        let shorter = plans.drop_last();
        lemma_best_plan(shorter, boring, view);
        let before = best_plan(shorter, boring, view);
        assert forall|i: int| 0 <= i < plans.len() implies rank(
            plans[best_plan(plans, boring, view)],
            boring,
            view,
        ) <= rank(#[trigger] plans[i], boring, view) by {
            if i < shorter.len() {
                assert(shorter[i] == plans[i]);
                assert(shorter[before] == plans[before]);
            }
        }
        assert forall|i: int| 0 <= i < best_plan(plans, boring, view) implies rank(
            plans[best_plan(plans, boring, view)],
            boring,
            view,
        ) < rank(#[trigger] plans[i], boring, view) by {
            assert(shorter[i] == plans[i]);
            if before >= 0 {
                assert(shorter[before] == plans[before]);
            }
        }
    }
}

/// What the player decides to do: the first action of the best plan, and
/// to stay still and await its fate where there is no plan.
pub open spec fn decided(boring: Seq<TileOffset>, view: Seq<SightingView>) -> Action {
    let plans = plans_of(view);
    if plans.len() == 0 {
        Action::StayStill
    } else {
        plans[best_plan(plans, boring, view)].0
    }
}

/// What the player remembers after its turn: the tile it stood on is
/// boring from now on unless it is a hill, and all boring tiles are seen
/// from where the player stands after its action.
pub open spec fn remembered(boring: Seq<TileOffset>, view: Seq<SightingView>, action: Action) -> Seq<
    TileOffset,
> {
    let noted = if stands_off_hill(view) {
        boring.push(TileOffset(0, 0))
    } else {
        boring
    };
    Seq::new(noted.len(), |i: int| noted[i].wrapped_sub(destination(action)))
}

/// Where the player stands after an action, seen from where it stood.
pub fn destination_of(action: Action) -> (offset: TileOffset)
    ensures
        offset == destination(action),
{
    match action {
        Action::Move(direction) => direction.extend(1),
        Action::DropBombAndMove(direction) => direction.extend(1),
        _ => TileOffset(0, 0),
    }
}

/// Plays one turn through in the mind: the action is taken, bombs whose
/// fuse has run out go off and set off the bombs they reach, and the player
/// lives if it stands on a walkable tile that no explosion reaches.
pub fn simulate_turn(surroundings: &Vec<Sighting>, action: Action) -> (turn: SimulatedTurn)
    ensures
        match simulated(sightings_view(surroundings@), action) {
            Some(next) => turn.next_turn_surroundings matches Some(found) && sightings_view(found@)
                == next,
            None => turn.next_turn_surroundings is None,
        },
{
    let ghost view = sightings_view(surroundings@);
    let step = destination_of(action);
    let dropping = match action {
        Action::DropBomb => true,
        Action::DropBombAndMove(_) => true,
        _ => false,
    };
    let mut moved: Vec<Sighting> = Vec::new();
    let mut i: usize = 0;
    assert(sightings_view(moved@) =~= after_action(view, action).take(0));
    while i < surroundings.len()
        invariant
            i <= surroundings@.len(),
            view == sightings_view(surroundings@),
            step == destination(action),
            dropping == drops_bomb(action),
            sightings_view(moved@) == after_action(view, action).take(i as int),
        decreases surroundings@.len() - i,
    {
        let sighting = copy_sighting(&surroundings[i]);
        let object = if dropping && sighting.3.0 == 0 && sighting.3.1 == 0 {
            match sighting.1 {
                Some(object) => Some(object),
                None => Some(
                    Object::Bomb { fuse_remaining: Ticks(PLANNED_FUSE), range: PLANNED_RANGE },
                ),
            }
        } else {
            sighting.1
        };
        let next: Sighting = (sighting.0, object, sighting.2, sighting.3.wrapping_sub(step));
        let ghost before = sightings_view(moved@);
        moved.push(next);
        i = i + 1;
        assert(sightings_view(moved@) =~= before.push(sighting_view(next)));
        assert(sightings_view(moved@) =~= after_action(view, action).take(i as int));
    }
    assert(after_action(view, action).take(i as int) =~= after_action(view, action));
    let ghost moved_view = sightings_view(moved@);
    let all_bombs = bombs(&moved);
    let free = empty_tiles(&moved);
    let mut exploding: Vec<Bomb> = Vec::new();
    let mut k: usize = 0;
    while k < all_bombs.len()
        invariant
            k <= all_bombs@.len(),
            exploding@ == due(all_bombs@.take(k as int)),
        decreases all_bombs@.len() - k,
    {
        proof {
            assert(all_bombs@.take(k + 1).drop_last() =~= all_bombs@.take(k as int));
        }
        if all_bombs[k].0.0 == 0 {
            exploding.push(all_bombs[k]);
        }
        k = k + 1;
    }
    assert(all_bombs@.take(k as int) =~= all_bombs@);
    iterative_explosions(&mut exploding, &all_bombs, &free);
    assert(exploding@ == exploding_in(moved_view));
    let here = TileOffset(0, 0);
    if !holds(&free, here) || is_reached(here, &exploding, &free) {
        return SimulatedTurn { next_turn_surroundings: None };
    }
    let mut next_turn: Vec<Sighting> = Vec::new();
    let mut j: usize = 0;
    let ghost expected = Seq::new(
        moved_view.len(),
        |i: int| settled(moved_view[i], exploding@, free@),
    );
    assert(sightings_view(next_turn@) =~= expected.take(0));
    while j < moved.len()
        invariant
            j <= moved@.len(),
            moved_view == sightings_view(moved@),
            expected == Seq::new(
                moved_view.len(),
                |i: int| settled(moved_view[i], exploding@, free@),
            ),
            sightings_view(next_turn@) == expected.take(j as int),
        decreases moved@.len() - j,
    {
        let sighting = copy_sighting(&moved[j]);
        let object = match sighting.1 {
            Some(Object::Bomb { fuse_remaining, range }) => {
                if bomb_lies_at(&exploding, sighting.3) {
                    None
                } else {
                    let fuse = if fuse_remaining.0 == 0 {
                        0
                    } else {
                        fuse_remaining.0 - 1
                    };
                    Some(Object::Bomb { fuse_remaining: Ticks(fuse), range })
                }
            },
            Some(Object::Crate) => {
                if is_reached(sighting.3, &exploding, &free) {
                    None
                } else {
                    Some(Object::Crate)
                }
            },
            other => other,
        };
        let next: Sighting = (sighting.0, object, sighting.2, sighting.3);
        let ghost before = sightings_view(next_turn@);
        next_turn.push(next);
        j = j + 1;
        assert(sightings_view(next_turn@) =~= before.push(sighting_view(next)));
        assert(sightings_view(next_turn@) =~= expected.take(j as int));
    }
    assert(expected.take(j as int) =~= expected);
    SimulatedTurn { next_turn_surroundings: Some(next_turn) }
}

impl MultiTurnPlan {
    /// The plan continued for one more turn with an action; `None` if the
    /// player does not expect to survive it.
    pub fn continue_with(self, action: Action) -> (continued: Option<MultiTurnPlan>)
        ensures
            match simulated(self@.1, action) {
                Some(next) => continued matches Some(plan) && plan@ == (self@.0, next),
                None => continued is None,
            },
    {
        let simulated_turn = simulate_turn(&self.final_surroundings, action);
        match simulated_turn.next_turn_surroundings {
            Some(final_surroundings) => Some(
                MultiTurnPlan { first_action: self.first_action, final_surroundings },
            ),
            None => None,
        }
    }

    /// The terrain on which the player ends up, where the plan knows it.
    pub fn final_terrain(&self) -> (tile: Option<Tile>)
        ensures
            tile == origin_tile(self@.1),
    {
        let ghost view = self@.1;
        let mut i: usize = 0;
        assert(view.skip(0) =~= view);
        while i < self.final_surroundings.len()
            invariant
                i <= self.final_surroundings@.len(),
                view == sightings_view(self.final_surroundings@),
                origin_tile(view) == origin_tile(view.skip(i as int)),
            decreases self.final_surroundings@.len() - i,
        {
            let sighting = &self.final_surroundings[i];
            proof {
                assert(view.skip(i as int)[0] == view[i as int]);
                assert(view.skip(i as int).drop_first() =~= view.skip(i + 1));
            }
            if sighting.3.0 == 0 && sighting.3.1 == 0 {
                return Some(sighting.0);
            }
            i = i + 1;
        }
        assert(view.skip(i as int).len() == 0);
        None
    }

    /// The tile on which the player ends up. The plans that the planner
    /// makes all know it.
    pub fn final_tile(&self) -> (tile: &Sighting)
        requires
            origin_tile(self@.1) is Some,
        ensures
            is_origin(tile.3),
            Some(tile.0) == origin_tile(self@.1),
    {
        let ghost view = self@.1;
        let mut i: usize = 0;
        assert(view.skip(0) =~= view);
        while i < self.final_surroundings.len()
            invariant
                i <= self.final_surroundings@.len(),
                view == sightings_view(self.final_surroundings@),
                origin_tile(view) is Some,
                origin_tile(view) == origin_tile(view.skip(i as int)),
            decreases self.final_surroundings@.len() - i,
        {
            let sighting = &self.final_surroundings[i];
            proof {
                assert(view.skip(i as int)[0] == view[i as int]);
                assert(view.skip(i as int).drop_first() =~= view.skip(i + 1));
            }
            if sighting.3.0 == 0 && sighting.3.1 == 0 {
                return sighting;
            }
            i = i + 1;
        }
        assert(view.skip(i as int).len() == 0);
        &self.final_surroundings[0]
    }

    /// Where the player stands after the first action of the plan, seen
    /// from where it stands now.
    pub fn next_position(&self) -> (offset: TileOffset)
        ensures
            offset == destination(self.first_action),
    {
        destination_of(self.first_action)
    }
}

/// Every action there is, bombing moves first.
pub fn all_possible_actions() -> (actions: Vec<Action>)
    ensures
        actions@ == every_action(),
{
    let mut actions: Vec<Action> = Vec::new();
    actions.push(Action::DropBombAndMove(Direction::East));
    actions.push(Action::DropBombAndMove(Direction::North));
    actions.push(Action::DropBombAndMove(Direction::South));
    actions.push(Action::DropBombAndMove(Direction::West));
    actions.push(Action::Move(Direction::East));
    actions.push(Action::Move(Direction::North));
    actions.push(Action::Move(Direction::South));
    actions.push(Action::Move(Direction::West));
    actions.push(Action::StayStill);
    actions.push(Action::DropBomb);
    assert(actions@ =~= every_action());
    actions
}

/// All the ways to go on with the plans for one more turn.
fn continue_plans(plans: &Vec<MultiTurnPlan>, actions: &Vec<Action>) -> (next: Vec<MultiTurnPlan>)
    requires
        actions@ == every_action(),
    ensures
        plans_view(next@) == continued(plans_view(plans@)),
{
    let ghost views = plans_view(plans@);
    let mut next: Vec<MultiTurnPlan> = Vec::new();
    let mut i: usize = 0;
    assert(views.take(0) =~= Seq::empty());
    assert(plans_view(next@) =~= continued(views.take(0)));
    while i < plans.len()
        invariant
            i <= plans@.len(),
            actions@ == every_action(),
            views == plans_view(plans@),
            plans_view(next@) == continued(views.take(i as int)),
        decreases plans@.len() - i,
    {
        let plan = &plans[i];
        let ghost before = plans_view(next@);
        let mut k: usize = 0;
        assert(actions@.take(0) =~= Seq::empty());
        assert(plans_view(next@) =~= before + continuations(views[i as int], actions@.take(0)));
        while k < actions.len()
            invariant
                k <= actions@.len(),
                i < plans@.len(),
                views == plans_view(plans@),
                *plan == plans@[i as int],
                plans_view(next@) == before + continuations(
                    views[i as int],
                    actions@.take(k as int),
                ),
            decreases actions@.len() - k,
        {
            proof {
                assert(actions@.take(k + 1).drop_last() =~= actions@.take(k as int));
            }
            let turn = simulate_turn(&plan.final_surroundings, actions[k]);
            match turn.next_turn_surroundings {
                Some(final_surroundings) => {
                    let ghost so_far = plans_view(next@);
                    let continued_plan = MultiTurnPlan {
                        first_action: plan.first_action,
                        final_surroundings,
                    };
                    next.push(continued_plan);
                    assert(plans_view(next@) =~= so_far.push(continued_plan@));
                    assert(plans_view(next@) =~= before + continuations(
                        views[i as int],
                        actions@.take(k + 1),
                    ));
                },
                None => {},
            }
            k = k + 1;
        }
        proof {
            assert(actions@.take(k as int) =~= actions@);
            assert(views.take(i + 1).drop_last() =~= views.take(i as int));
        }
        i = i + 1;
    }
    assert(views.take(i as int) =~= views);
    next
}

/// All the plans that the player survives, as far as it can foresee.
pub fn all_possible_plans(surroundings: &Vec<Sighting>) -> (plans: Vec<MultiTurnPlan>)
    ensures
        plans_view(plans@) == plans_of(sightings_view(surroundings@)),
{
    let ghost view = sightings_view(surroundings@);
    let actions = all_possible_actions();
    let mut plans: Vec<MultiTurnPlan> = Vec::new();
    let mut i: usize = 0;
    assert(actions@.take(0) =~= Seq::empty());
    assert(plans_view(plans@) =~= opening_plans(view, actions@.take(0)));
    while i < actions.len()
        invariant
            i <= actions@.len(),
            view == sightings_view(surroundings@),
            plans_view(plans@) == opening_plans(view, actions@.take(i as int)),
        decreases actions@.len() - i,
    {
        proof {
            assert(actions@.take(i + 1).drop_last() =~= actions@.take(i as int));
        }
        let action = actions[i];
        let turn = simulate_turn(surroundings, action);
        let standing_bomb = match action {
            Action::DropBomb => true,
            _ => false,
        };
        match turn.next_turn_surroundings {
            Some(final_surroundings) => {
                if !standing_bomb {
                    let ghost so_far = plans_view(plans@);
                    let plan = MultiTurnPlan { first_action: action, final_surroundings };
                    plans.push(plan);
                    assert(plans_view(plans@) =~= so_far.push(plan@));
                }
            },
            None => {},
        }
        i = i + 1;
    }
    assert(actions@.take(i as int) =~= actions@);
    let mut turns: usize = 0;
    while turns < TURN_LOOKAHEAD
        invariant
            turns <= TURN_LOOKAHEAD,
            actions@ == every_action(),
            plans_of(view) == lookahead(plans_view(plans@), (TURN_LOOKAHEAD - turns) as nat),
        decreases TURN_LOOKAHEAD - turns,
    {
        plans = continue_plans(&plans, &actions);
        turns = turns + 1;
    }
    plans
}

impl Bomber {
    /// A player that has not been anywhere yet.
    pub fn new() -> (bomber: Bomber)
        ensures
            bomber.boring_tiles@.len() == 0,
    {
        Bomber { boring_tiles: Vec::new() }
    }

    /// How little a plan promises: the smaller, the better.
    fn rank_of(&self, plan: &MultiTurnPlan, surroundings: &Vec<Sighting>) -> (rank: u8)
        ensures
            rank == self::rank(plan@, self.boring_tiles@, sightings_view(surroundings@)),
    {
        let ghost view = sightings_view(surroundings@);
        let target = plan.next_position();
        let mut power_up = false;
        let mut i: usize = 0;
        while i < surroundings.len()
            invariant
                i <= surroundings@.len(),
                view == sightings_view(surroundings@),
                power_up == power_up_at(view.take(i as int), target),
            decreases surroundings@.len() - i,
        {
            let found = match surroundings[i].1 {
                Some(Object::PowerUp(_)) => surroundings[i].3 == target,
                _ => false,
            };
            proof {
                let shorter = view.take(i as int);
                let longer = view.take(i + 1);
                if found {
                    assert(longer[i as int] == view[i as int]);
                } else if power_up_at(longer, target) {
                    let k = choose|k: int|
                        0 <= k < longer.len() && holds_power_up(#[trigger] longer[k])
                            && longer[k].3 == target;
                    assert(shorter[k] == longer[k]);
                }
                if power_up {
                    let k = choose|k: int|
                        0 <= k < shorter.len() && holds_power_up(#[trigger] shorter[k])
                            && shorter[k].3 == target;
                    assert(longer[k] == shorter[k]);
                }
            }
            if found {
                power_up = true;
            }
            i = i + 1;
        }
        assert(view.take(i as int) =~= view);
        let no_power_up: u8 = if power_up {
            0
        } else {
            8
        };
        let no_hill: u8 = match plan.final_terrain() {
            Some(Tile::Hill) => 0,
            _ => 4,
        };
        let is_boring: u8 = if holds(&self.boring_tiles, target) {
            2
        } else {
            0
        };
        let no_bomb: u8 = match plan.first_action {
            Action::DropBomb => 0,
            Action::DropBombAndMove(_) => 0,
            _ => 1,
        };
        no_power_up + no_hill + is_boring + no_bomb
    }

    /// Decides what to do, and remembers where the player has been.
    ///
    /// All plans that the player survives a few turns ahead are made, limited
    /// by what it can see; the first action of the most promising one is
    /// taken. Where there is none, the player stays still and awaits its
    /// fate.
    pub fn decide(&mut self, surroundings: Vec<Sighting>) -> (action: Action)
        ensures
            action == decided(old(self).boring_tiles@, sightings_view(surroundings@)),
            final(self).boring_tiles@ == remembered(
                old(self).boring_tiles@,
                sightings_view(surroundings@),
                action,
            ),
    {
        let ghost view = sightings_view(surroundings@);
        let ghost boring = self.boring_tiles@;
        let plans = all_possible_plans(&surroundings);
        let ghost plan_views = plans_view(plans@);
        let mut best: Option<(usize, u8)> = None;
        let mut i: usize = 0;
        while i < plans.len()
            invariant
                i <= plans@.len(),
                view == sightings_view(surroundings@),
                boring == self.boring_tiles@,
                plan_views == plans_view(plans@),
                match best {
                    Some((index, best_rank)) => index == best_plan(
                        plan_views.take(i as int),
                        boring,
                        view,
                    ) && index < i && best_rank == rank(plan_views[index as int], boring, view),
                    None => i == 0,
                },
            decreases plans@.len() - i,
        {
            proof {
                assert(plan_views.take(i + 1).drop_last() =~= plan_views.take(i as int));
                lemma_best_plan(plan_views.take(i as int), boring, view);
            }
            let this_rank = self.rank_of(&plans[i], &surroundings);
            best = match best {
                Some((index, best_rank)) => {
                    if this_rank < best_rank {
                        Some((i, this_rank))
                    } else {
                        Some((index, best_rank))
                    }
                },
                None => Some((i, this_rank)),
            };
            i = i + 1;
        }
        assert(plan_views.take(i as int) =~= plan_views);
        let action = match best {
            Some((index, _)) => plans[index].first_action,
            None => Action::StayStill,
        };
        let mut off_hill = false;
        let mut k: usize = 0;
        while k < surroundings.len()
            invariant
                k <= surroundings@.len(),
                view == sightings_view(surroundings@),
                off_hill == stands_off_hill(view.take(k as int)),
            decreases surroundings@.len() - k,
        {
            let sighting = &surroundings[k];
            let found = sighting.3.0 == 0 && sighting.3.1 == 0 && match sighting.0 {
                Tile::Hill => false,
                _ => true,
            };
            proof {
                let shorter = view.take(k as int);
                let longer = view.take(k + 1);
                if found {
                    assert(longer[k as int] == view[k as int]);
                } else if stands_off_hill(longer) {
                    let w = choose|w: int|
                        0 <= w < longer.len() && is_origin((#[trigger] longer[w]).3) && longer[w].0
                            != Tile::Hill;
                    assert(shorter[w] == longer[w]);
                }
                if off_hill {
                    let w = choose|w: int|
                        0 <= w < shorter.len() && is_origin((#[trigger] shorter[w]).3)
                            && shorter[w].0 != Tile::Hill;
                    assert(longer[w] == shorter[w]);
                }
            }
            if found {
                off_hill = true;
            }
            k = k + 1;
        }
        assert(view.take(k as int) =~= view);
        if off_hill {
            self.boring_tiles.push(TileOffset(0, 0));
        }
        let step = destination_of(action);
        let ghost noted = self.boring_tiles@;
        let mut shifted: Vec<TileOffset> = Vec::new();
        let mut j: usize = 0;
        while j < self.boring_tiles.len()
            invariant
                j <= self.boring_tiles@.len(),
                noted == self.boring_tiles@,
                step == destination(action),
                shifted@.len() == j,
                forall|w: int| 0 <= w < j ==> shifted@[w] == noted[w].wrapped_sub(step),
            decreases self.boring_tiles@.len() - j,
        {
            shifted.push(self.boring_tiles[j].wrapping_sub(step));
            j = j + 1;
        }
        self.boring_tiles = shifted;
        assert(self.boring_tiles@ =~= remembered(boring, view, action));
        action
    }
}

impl Default for Bomber {
    fn default() -> (bomber: Bomber)
        ensures
            bomber.boring_tiles@.len() == 0,
    {
        Bomber::new()
    }
}

impl Player for Bomber {
    open spec fn choice(&self, surroundings: Seq<SightingView>, last_result: LastTurnResult) -> Action {
        decided(self.boring_tiles@, surroundings)
    }

    open spec fn told_name(&self) -> Seq<char> {
        "unsafe{!}"@
    }

    open spec fn told_team() -> Seq<char> {
        "Asbestos"@
    }

    fn act(&mut self, surroundings: Vec<Sighting>, last_result: LastTurnResult) -> (action: Action)
        ensures
            action == decided(old(self).boring_tiles@, sightings_view(surroundings@)),
            final(self).boring_tiles@ == remembered(
                old(self).boring_tiles@,
                sightings_view(surroundings@),
                action,
            ),
    {
        self.decide(surroundings)
    }

    fn name(&self) -> (name: String)
        ensures
            name@ == "unsafe{!}"@,
    {
        "unsafe{!}".to_owned()
    }

    fn team_name() -> (name: String)
        ensures
            name@ == "Asbestos"@,
    {
        "Asbestos".to_owned()
    }
}

} // verus!
