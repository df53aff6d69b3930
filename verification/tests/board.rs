use bomber_lib::board::Board;
use bomber_lib::game_map::{GameMap, TileLocation};
use bomber_lib::rules::PowerUps;
use bomber_lib::world::{Object, PowerUp, Ticks, Tile};

/// A walled field of seven by five with two crates and a place to appear.
///
/// ```text
/// #######
/// #..c..#
/// #.....#
/// #s.5..#
/// #######
/// ```
fn field(roll: u32) -> Board {
    let text = "#######\n#..c..#\n#.....#\n#s.5..#\n#######";
    let (_, cells) = GameMap::spawn_from_text(text).unwrap();
    let rolls = vec![roll; cells.len()];
    Board::from_cells(&cells, &rolls)
}

#[test]
fn a_board_is_set_up_from_the_cells_of_a_map() {
    let board = field(5);
    assert_eq!(board.tile_list().len(), 35);
    assert_eq!(board.tile(TileLocation(0, 0)), Some(Tile::Wall));
    assert_eq!(board.tile(TileLocation(1, 1)), Some(Tile::Floor));
    assert_eq!(board.tile(TileLocation(7, 0)), None);
    assert_eq!(board.spawner_list(), &vec![TileLocation(1, 1)]);
    assert_eq!(
        board.object_list(),
        &vec![(TileLocation(3, 1), Object::Crate), (TileLocation(3, 3), Object::Crate)]
    );
    assert!(board.flame_list().is_empty());
    // With a higher roll the crate that stands by chance is not there.
    assert_eq!(field(6).object_list(), &vec![(TileLocation(3, 3), Object::Crate)]);
    assert_eq!(field(10).object_list(), &vec![(TileLocation(3, 3), Object::Crate)]);
}

#[test]
fn bombs_are_dropped_as_long_as_the_owner_may() {
    let mut board = field(10);
    assert_eq!(board.count_bombs(7), 0);
    assert!(board.drop_bomb(TileLocation(1, 1), 7));
    assert_eq!(
        board.object_list()[1],
        (TileLocation(1, 1), Object::Bomb { fuse_remaining: Ticks(2), range: 2 })
    );
    assert_eq!(board.count_bombs(7), 1);
    assert!(!board.drop_bomb(TileLocation(2, 1), 7));
    assert_eq!(board.object_list().len(), 2);
    // Another owner has a bomb of its own.
    assert!(board.drop_bomb(TileLocation(2, 1), 8));
    assert_eq!(board.count_bombs(7), 1);
    assert_eq!(board.count_bombs(8), 1);
}

#[test]
fn fuses_burn_down_until_the_bombs_go_off() {
    let mut board = field(10);
    board.drop_bomb(TileLocation(1, 1), 7);
    assert!(board.tick_fuses().is_empty());
    board.drop_bomb(TileLocation(5, 1), 8);
    assert!(board.tick_fuses().is_empty());
    assert_eq!(
        board.object_list(),
        &vec![
            (TileLocation(3, 3), Object::Crate),
            (TileLocation(1, 1), Object::Bomb { fuse_remaining: Ticks(0), range: 2 }),
            (TileLocation(5, 1), Object::Bomb { fuse_remaining: Ticks(1), range: 2 }),
        ]
    );
    assert_eq!(board.tick_fuses(), vec![(TileLocation(1, 1), 2)]);
    assert_eq!(
        board.object_list(),
        &vec![
            (TileLocation(3, 3), Object::Crate),
            (TileLocation(5, 1), Object::Bomb { fuse_remaining: Ticks(0), range: 2 }),
        ]
    );
    // The owner of the bomb that went off may drop another.
    assert!(board.drop_bomb(TileLocation(1, 1), 7));
    assert!(!board.drop_bomb(TileLocation(1, 1), 8));
}

#[test]
fn a_blast_kills_blows_up_crates_and_sets_off_bombs() {
    let mut board = field(5);
    board.drop_bomb(TileLocation(1, 3), 7);
    board.drop_bomb(TileLocation(3, 2), 8);
    let agents = vec![TileLocation(2, 1), TileLocation(1, 2), TileLocation(5, 3)];
    let loot = vec![None, Some(PowerUp::VisionRange)];
    // A bomb at the spawner reaches the crate east of it and north as far
    // as its range.
    let ignition = board.ignite((TileLocation(1, 1), 2), &agents, &loot);
    assert_eq!(ignition.killed, vec![1, 0]);
    assert_eq!(ignition.set_off, vec![(TileLocation(1, 3), 2)]);
    assert_eq!(
        board.flame_list(),
        &vec![
            TileLocation(1, 1),
            TileLocation(1, 2),
            TileLocation(1, 3),
            TileLocation(2, 1),
            TileLocation(3, 1),
        ]
    );
    // The crate in the flames is gone without loot, the bomb in the
    // flames has left to go off, everything else stays.
    assert_eq!(
        board.object_list(),
        &vec![
            (TileLocation(3, 3), Object::Crate),
            (TileLocation(3, 2), Object::Bomb { fuse_remaining: Ticks(2), range: 2 }),
        ]
    );
    // The bomb that was set off blows the other crate up, which leaves loot.
    let survivors = vec![TileLocation(2, 1), TileLocation(5, 3)];
    let ignition =
        board.ignite((TileLocation(1, 3), 2), &survivors, &vec![Some(PowerUp::BombRange)]);
    assert!(ignition.killed.is_empty());
    assert!(ignition.set_off.is_empty());
    assert_eq!(
        board.object_list(),
        &vec![
            (TileLocation(3, 3), Object::PowerUp(PowerUp::BombRange)),
            (TileLocation(3, 2), Object::Bomb { fuse_remaining: Ticks(2), range: 2 }),
        ]
    );
    assert_eq!(board.flame_list().len(), 5 + 5);
    assert_eq!(board.count_bombs(8), 1);
    board.put_out();
    assert!(board.flame_list().is_empty());
}

#[test]
fn power_ups_go_to_whoever_picks_them_up() {
    let mut board = field(10);
    board.ignite((TileLocation(3, 2), 1), &vec![], &vec![Some(PowerUp::SimultaneousBombs)]);
    assert_eq!(
        board.object_list(),
        &vec![(TileLocation(3, 3), Object::PowerUp(PowerUp::SimultaneousBombs))]
    );
    assert_eq!(board.pick_up(7, TileLocation(3, 2)), None);
    assert_eq!(board.power_ups_of(7), PowerUps::new());
    assert_eq!(board.pick_up(7, TileLocation(3, 3)), Some(PowerUp::SimultaneousBombs));
    assert!(board.object_list().is_empty());
    assert_eq!(
        board.power_ups_of(7),
        PowerUps { bomb_range: 0, simultaneous_bombs: 1, vision_range: 0 }
    );
    assert_eq!(board.power_ups_of(8), PowerUps::new());
    assert_eq!(board.pick_up(7, TileLocation(3, 3)), None);
    // With the power-up the owner may have two bombs ticking.
    assert!(board.drop_bomb(TileLocation(1, 1), 7));
    assert!(board.drop_bomb(TileLocation(2, 1), 7));
    assert!(!board.drop_bomb(TileLocation(3, 1), 7));
    // A module that enters anew starts without power-ups.
    board.forget(7);
    assert_eq!(board.power_ups_of(7), PowerUps::new());
    assert!(!board.drop_bomb(TileLocation(3, 1), 7));
}
