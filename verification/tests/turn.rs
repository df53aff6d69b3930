use bomber_lib::fuel::{FuelMeter, InternalInvariantViolation};
use bomber_lib::game_map::{object_from_char, spawner_from_char, tile_from_char, TileLocation};
use bomber_lib::spawning::{available_spawn_locations, choose_spawn_location};
use bomber_lib::text::{characters, filter_name, split_lines};
use bomber_lib::turn::{
    apply_action, attempt_move, surroundings, ActionOutcome, MoveRejection,
    PLAYER_VIEW_TAXICAB_DISTANCE,
};
use bomber_lib::world::{
    Action, Direction, Enemy, LastTurnResult, Object, PowerUp, Ticks, Tile, TileOffset,
};

fn open_field(width: usize, height: usize) -> Vec<(TileLocation, Tile)> {
    let mut tiles = Vec::new();
    for y in 0..height {
        for x in 0..width {
            tiles.push((TileLocation(x, y), Tile::Floor));
        }
    }
    tiles
}

fn rival(name: &str) -> Enemy {
    Enemy { name: name.to_string(), team_name: "Team".to_string(), score: 3 }
}

#[test]
fn a_view_holds_exactly_the_tiles_within_the_radius() {
    let tiles = open_field(11, 11);
    for center in [TileLocation(5, 5), TileLocation(0, 0), TileLocation(10, 3)] {
        let view = surroundings(center, &tiles, &vec![], &vec![], 3);
        let expected: Vec<TileOffset> = tiles
            .iter()
            .map(|(location, _)| {
                TileOffset(
                    location.0 as i32 - center.0 as i32,
                    location.1 as i32 - center.1 as i32,
                )
            })
            .filter(|offset| offset.0.abs() + offset.1.abs() <= 3)
            .collect();
        let seen: Vec<TileOffset> = view.iter().map(|sighting| sighting.3).collect();
        assert_eq!(seen, expected);
    }
    assert_eq!(surroundings(TileLocation(5, 5), &tiles, &vec![], &vec![], 3).len(), 25);
    assert_eq!(surroundings(TileLocation(0, 0), &tiles, &vec![], &vec![], 3).len(), 10);
    assert_eq!(surroundings(TileLocation(5, 5), &tiles, &vec![], &vec![], 0).len(), 1);
    assert_eq!(
        surroundings(TileLocation(5, 5), &tiles, &vec![], &vec![], PLAYER_VIEW_TAXICAB_DISTANCE)
            .len(),
        61
    );
}

#[test]
fn two_agents_each_see_the_other_and_not_themselves() {
    let tiles = open_field(9, 3);
    let first = TileLocation(2, 1);
    let second = TileLocation(4, 1);
    let bomb = Object::Bomb { fuse_remaining: Ticks(1), range: 2 };
    let objects = vec![
        (TileLocation(3, 1), bomb),
        (TileLocation(3, 1), Object::Crate),
        (TileLocation(8, 1), Object::PowerUp(PowerUp::BombRange)),
    ];
    let seen_by_first =
        surroundings(first, &tiles, &objects, &vec![(second, rival("Second"))], 3);
    let seen_by_second =
        surroundings(second, &tiles, &objects, &vec![(first, rival("First"))], 3);

    let here = seen_by_first.iter().find(|s| s.3 == TileOffset(0, 0)).unwrap();
    assert_eq!((here.0, here.1, here.2.clone()), (Tile::Floor, None, None));
    let there = seen_by_first.iter().find(|s| s.3 == TileOffset(2, 0)).unwrap();
    assert_eq!(there.2, Some(rival("Second")));
    assert_eq!(seen_by_first.iter().filter(|s| s.2.is_some()).count(), 1);
    // The first object on a tile is the one shown.
    let between = seen_by_first.iter().find(|s| s.3 == TileOffset(1, 0)).unwrap();
    assert_eq!(between.1, Some(bomb));
    assert!(seen_by_first.iter().all(|s| s.3.taxicab_distance() <= 3));
    assert!(!seen_by_first.iter().any(|s| s.3 == TileOffset(6, 0)));

    let here = seen_by_second.iter().find(|s| s.3 == TileOffset(0, 0)).unwrap();
    assert_eq!(here.2, None);
    let there = seen_by_second.iter().find(|s| s.3 == TileOffset(-2, 0)).unwrap();
    assert_eq!(there.2, Some(rival("First")));
    assert!(seen_by_second.iter().all(|s| s.3.taxicab_distance() <= 3));
    assert!(seen_by_second.iter().all(|s| s.1 != Some(Object::PowerUp(PowerUp::BombRange))));
}

#[test]
fn moves_are_made_onto_free_floor_and_hills_only() {
    let tiles = vec![
        (TileLocation(1, 1), Tile::Floor),
        (TileLocation(1, 2), Tile::Hill),
        (TileLocation(2, 1), Tile::Wall),
        (TileLocation(0, 1), Tile::Floor),
        (TileLocation(1, 0), Tile::Floor),
    ];
    let here = TileLocation(1, 1);
    let nothing = vec![];
    let nobody = vec![];
    assert_eq!(
        attempt_move(here, Direction::North, &tiles, &nothing, &nobody),
        Ok(TileLocation(1, 2))
    );
    assert_eq!(
        attempt_move(here, Direction::East, &tiles, &nothing, &nobody),
        Err(MoveRejection::Blocked)
    );
    assert_eq!(
        attempt_move(TileLocation(1, 2), Direction::North, &tiles, &nothing, &nobody),
        Err(MoveRejection::NoTile)
    );
    assert_eq!(
        attempt_move(TileLocation(0, 1), Direction::West, &tiles, &nothing, &nobody),
        Err(MoveRejection::InvalidTarget)
    );
    assert_eq!(
        attempt_move(TileLocation(1, 0), Direction::South, &tiles, &nothing, &nobody),
        Err(MoveRejection::InvalidTarget)
    );
    let crates = vec![(TileLocation(0, 1), Object::Crate)];
    assert_eq!(
        attempt_move(here, Direction::West, &tiles, &crates, &nobody),
        Err(MoveRejection::Blocked)
    );
    let power_ups = vec![(TileLocation(0, 1), Object::PowerUp(PowerUp::VisionRange))];
    assert_eq!(
        attempt_move(here, Direction::West, &tiles, &power_ups, &nobody),
        Ok(TileLocation(0, 1))
    );
    assert_eq!(
        attempt_move(here, Direction::South, &tiles, &nothing, &vec![TileLocation(1, 0)]),
        Err(MoveRejection::Blocked)
    );
}

#[test]
fn every_action_has_its_outcome() {
    let tiles = vec![(TileLocation(1, 1), Tile::Floor), (TileLocation(1, 2), Tile::Floor)];
    let here = TileLocation(1, 1);
    assert_eq!(
        apply_action(Action::StayStill, here, &tiles, &vec![], &vec![]),
        ActionOutcome {
            location: here,
            bomb: None,
            result: LastTurnResult::StoodStill,
            rejection: None
        }
    );
    assert_eq!(
        apply_action(Action::DropBomb, here, &tiles, &vec![], &vec![]),
        ActionOutcome {
            location: here,
            bomb: Some(here),
            result: LastTurnResult::StoodStill,
            rejection: None
        }
    );
    assert_eq!(
        apply_action(Action::Move(Direction::North), here, &tiles, &vec![], &vec![]),
        ActionOutcome {
            location: TileLocation(1, 2),
            bomb: None,
            result: LastTurnResult::Moved(Direction::North),
            rejection: None
        }
    );
    assert_eq!(
        apply_action(Action::DropBombAndMove(Direction::North), here, &tiles, &vec![], &vec![]),
        ActionOutcome {
            location: TileLocation(1, 2),
            bomb: Some(here),
            result: LastTurnResult::Moved(Direction::North),
            rejection: None
        }
    );
    assert_eq!(
        apply_action(Action::DropBombAndMove(Direction::East), here, &tiles, &vec![], &vec![]),
        ActionOutcome {
            location: here,
            bomb: None,
            result: LastTurnResult::ActionFailed,
            rejection: Some(MoveRejection::NoTile)
        }
    );
}

#[test]
fn new_agents_enter_far_from_the_others() {
    let spawners =
        vec![TileLocation(0, 0), TileLocation(9, 0), TileLocation(0, 9), TileLocation(9, 9)];
    let agents = vec![TileLocation(0, 1)];
    let objects = vec![(TileLocation(9, 9), Object::PowerUp(PowerUp::BombRange))];
    let available = available_spawn_locations(&spawners, &objects, &agents);
    assert_eq!(available, vec![TileLocation(0, 0), TileLocation(9, 0), TileLocation(0, 9)]);
    assert_eq!(choose_spawn_location(&available, &agents), Some(TileLocation(9, 0)));
    // Where places are equally far, the one named last is taken.
    assert_eq!(choose_spawn_location(&spawners, &vec![]), Some(TileLocation(9, 9)));
    assert_eq!(
        choose_spawn_location(&vec![TileLocation(2, 0), TileLocation(0, 2)], &vec![TileLocation(0, 0)]),
        Some(TileLocation(0, 2))
    );
    assert_eq!(choose_spawn_location(&vec![], &agents), None);
    // A place on which an agent stands is not free.
    assert_eq!(available_spawn_locations(&spawners, &vec![], &vec![TileLocation(9, 0)]).len(), 3);
}

#[test]
fn distances_between_places() {
    let here = TileLocation(3, 4);
    assert_eq!(here.taxicab_distance_to(TileLocation(0, 0)), 7);
    assert_eq!(here.taxicab_distance_to(TileLocation(5, 1)), 5);
    assert_eq!(here.taxicab_distance_to_closest(&vec![TileLocation(0, 0), TileLocation(5, 1)]), 5);
    assert_eq!(here.taxicab_distance_to_closest(&vec![]), u32::MAX);
    assert_eq!(TileLocation(0, 0).taxicab_distance_to(TileLocation(usize::MAX, 0)), u32::MAX);
}

#[test]
fn places_differ_by_offsets() {
    assert_eq!(TileLocation(3, 4).sub(TileLocation(5, 1)), TileOffset(-2, 3));
    assert_eq!(TileLocation(3, 4).checked_sub(TileLocation(5, 1)), Some(TileOffset(-2, 3)));
    assert_eq!(
        TileLocation(0, 0).checked_sub(TileLocation(2147483648, 0)),
        Some(TileOffset(i32::MIN, 0))
    );
    assert_eq!(TileLocation(0, 0).checked_sub(TileLocation(2147483649, 0)), None);
    assert_eq!(TileLocation(2147483648, 0).checked_sub(TileLocation(0, 0)), None);
    assert_eq!(TileLocation(0, 0).add(Direction::West), None);
    assert_eq!(TileLocation(0, 0).add(Direction::South), None);
    assert_eq!(TileLocation(0, 0).add(Direction::East), Some(TileLocation(1, 0)));
    assert_eq!(TileLocation(0, 0).add(Direction::North), Some(TileLocation(0, 1)));
    assert_eq!(TileLocation(usize::MAX, 0).add(Direction::East), None);
}

#[test]
fn map_characters_stand_for_terrain_crates_and_spawners() {
    assert_eq!(tile_from_char('#'), Tile::Wall);
    assert_eq!(tile_from_char('~'), Tile::Hill);
    assert_eq!(tile_from_char('C'), Tile::Hill);
    assert_eq!(tile_from_char('.'), Tile::Floor);
    assert_eq!(tile_from_char('s'), Tile::Floor);
    assert_eq!(object_from_char('c', 10), Some(Object::Crate));
    assert_eq!(object_from_char('C', 1), Some(Object::Crate));
    assert_eq!(object_from_char('3', 3), Some(Object::Crate));
    assert_eq!(object_from_char('3', 4), None);
    assert_eq!(object_from_char('9', 10), None);
    assert_eq!(object_from_char('0', 1), None);
    assert_eq!(object_from_char('.', 1), None);
    assert!(spawner_from_char('s'));
    assert!(!spawner_from_char('S'));
}

#[test]
fn names_are_cut_to_their_first_line_and_to_size() {
    assert_eq!(filter_name("Mr North", 16), "Mr North");
    assert_eq!(filter_name("A name that is far too long", 16), "A name that is f");
    assert_eq!(filter_name("two\nlines", 16), "two");
    assert_eq!(filter_name("carriage\r\nreturn", 16), "carriage");
    assert_eq!(filter_name("\nsecond", 16), "");
    assert_eq!(filter_name("", 16), "Trickster");
    assert_eq!(filter_name("", 3), "Trickster");
    assert_eq!(filter_name("héros ✓ 🦀 and more", 9), "héros ✓ 🦀");
    assert_eq!(filter_name("anything", 0), "");
}

#[test]
fn lines_are_split_as_the_standard_library_splits_them() {
    let texts = [
        "", "\n", "a", "a\n", "a\nb", "a\n\nb", "a\r\nb", "a\r", "\r\n", "a\rb\n", "\n\n", "a\n\r\n",
        "foo\nbar\n\r\nbaz\r",
    ];
    for text in texts {
        let lines: Vec<String> =
            split_lines(&characters(text)).iter().map(|l| l.iter().collect()).collect();
        let expected: Vec<String> = text.lines().map(|l| l.to_string()).collect();
        assert_eq!(lines, expected);
    }
    assert_eq!(characters("héros"), vec!['h', 'é', 'r', 'o', 's']);
}

#[test]
fn the_fuel_books_add_up() {
    let mut meter = FuelMeter::new();
    assert_eq!(meter.record(0), Ok(0));
    assert_eq!(meter.record(1), Err(InternalInvariantViolation));
    meter.top_up(1000);
    assert_eq!(meter.record(900), Ok(100));
    assert_eq!(meter.record(900), Ok(0));
    assert_eq!(meter.record(250), Ok(650));
    assert_eq!(meter.total_consumed(), 750);
    assert_eq!(meter.consumed_since_top_up(), 750);
    // Fuel does not come back without a top-up.
    assert_eq!(meter.record(251), Err(InternalInvariantViolation));
    assert_eq!(meter.total_consumed(), 750);
    meter.top_up(1000);
    assert_eq!(meter.consumed_since_top_up(), 0);
    assert_eq!(meter.total_consumed(), 750);
    assert_eq!(meter.record(0), Ok(1000));
    assert_eq!(meter.total_consumed(), 1750);
    assert_eq!(meter.consumed_since_top_up(), 1000);
}

#[test]
fn a_total_beyond_the_counter_is_refused() {
    let mut meter = FuelMeter::new();
    meter.top_up(u64::MAX);
    assert_eq!(meter.record(1), Ok(u64::MAX - 1));
    meter.top_up(10);
    assert_eq!(meter.record(9), Ok(1));
    assert_eq!(meter.record(8), Err(InternalInvariantViolation));
    assert_eq!(meter.total_consumed(), u64::MAX);
    assert_eq!(meter.consumed_since_top_up(), 1);
}

#[test]
fn nobody_is_shown_at_the_viewers_own_place() {
    let tiles = open_field(5, 3);
    let here = TileLocation(2, 1);
    let rivals = vec![(here, rival("Shadow")), (TileLocation(3, 1), rival("Neighbour"))];
    let view = surroundings(here, &tiles, &vec![], &rivals, 3);
    let own = view.iter().find(|s| s.3 == TileOffset(0, 0)).unwrap();
    assert_eq!(own.2, None);
    let next = view.iter().find(|s| s.3 == TileOffset(1, 0)).unwrap();
    assert_eq!(next.2, Some(rival("Neighbour")));
    assert_eq!(view.iter().filter(|s| s.2.is_some()).count(), 1);
    // Seen from next door, the one who shares the tile is shown.
    let view = surroundings(TileLocation(3, 1), &tiles, &vec![], &rivals, 3);
    let west = view.iter().find(|s| s.3 == TileOffset(-1, 0)).unwrap();
    assert_eq!(west.2, Some(rival("Shadow")));
    let own = view.iter().find(|s| s.3 == TileOffset(0, 0)).unwrap();
    assert_eq!(own.2, None);
}
