use bomber_lib::world::{Action, Direction, Object, PowerUp, Ticks, TileOffset};

#[test]
fn various_distance_calculations() {
    let offset = TileOffset(4, 3);

    assert_eq!(offset.taxicab_distance(), 7);
    assert_eq!(offset.chebyshev_distance(), 4);
}

#[test]
fn distances_ignore_the_sign_of_coordinates() {
    assert_eq!(TileOffset(-4, 3).taxicab_distance(), 7);
    assert_eq!(TileOffset(4, -3).taxicab_distance(), 7);
    assert_eq!(TileOffset(-4, -3).chebyshev_distance(), 4);
    assert_eq!(TileOffset(0, 0).taxicab_distance(), 0);
    assert_eq!(TileOffset(0, 0).chebyshev_distance(), 0);
}

#[test]
fn distances_at_the_edge_of_the_coordinate_range() {
    assert_eq!(TileOffset(i32::MIN, 0).chebyshev_distance(), 2147483648);
    assert_eq!(TileOffset(i32::MIN, i32::MAX).taxicab_distance(), 4294967295);
    assert_eq!(TileOffset(i32::MAX, i32::MAX).taxicab_distance(), 4294967294);
}

#[test]
fn adjacency_counts_diagonals_and_the_origin() {
    assert!(TileOffset(0, 0).is_adjacent());
    assert!(TileOffset(1, 1).is_adjacent());
    assert!(TileOffset(-1, 1).is_adjacent());
    assert!(!TileOffset(2, 0).is_adjacent());
    assert!(!TileOffset(i32::MIN, 0).is_adjacent());
}

#[test]
fn orthogonal_adjacency_leaves_diagonals_and_the_origin_out() {
    assert!(TileOffset(1, 0).is_orthogonally_adjacent());
    assert!(TileOffset(0, -1).is_orthogonally_adjacent());
    assert!(!TileOffset(1, 1).is_orthogonally_adjacent());
    assert!(!TileOffset(0, 0).is_orthogonally_adjacent());
    assert!(!TileOffset(0, 2).is_orthogonally_adjacent());
}

#[test]
fn directions_extend_along_their_axis() {
    assert_eq!(Direction::West.extend(2), TileOffset(-2, 0));
    assert_eq!(Direction::North.extend(2), TileOffset(0, 2));
    assert_eq!(Direction::East.extend(2), TileOffset(2, 0));
    assert_eq!(Direction::South.extend(2), TileOffset(0, -2));
    assert_eq!(Direction::South.extend(-1), TileOffset(0, 1));
    assert_eq!(Direction::North.extend(i32::MIN), TileOffset(0, i32::MIN));
}

#[test]
fn all_directions_come_in_declaration_order() {
    assert_eq!(
        Direction::all(),
        [Direction::West, Direction::North, Direction::East, Direction::South]
    );
}

#[test]
fn offsets_on_an_axis_point_in_a_direction() {
    assert_eq!(Direction::try_from(TileOffset(3, 0)), Ok(Direction::East));
    assert_eq!(Direction::try_from(TileOffset(-3, 0)), Ok(Direction::West));
    assert_eq!(Direction::try_from(TileOffset(0, 1)), Ok(Direction::North));
    assert_eq!(Direction::try_from(TileOffset(0, -1)), Ok(Direction::South));
    assert_eq!(Direction::try_from(TileOffset(0, 0)), Err(()));
    assert_eq!(Direction::try_from(TileOffset(1, 1)), Err(()));
}

#[test]
fn bombs_and_crates_are_solid() {
    assert!(Object::Bomb { fuse_remaining: Ticks(1), range: 2 }.is_solid());
    assert!(Object::Crate.is_solid());
    assert!(!Object::PowerUp(PowerUp::BombRange).is_solid());
}

#[test]
fn power_ups_have_their_limits() {
    assert_eq!(PowerUp::BombRange.max_count_per_player(), 5);
    assert_eq!(PowerUp::SimultaneousBombs.max_count_per_player(), 3);
    assert_eq!(PowerUp::VisionRange.max_count_per_player(), 5);
}

#[test]
fn offsets_add_and_subtract_by_coordinate() {
    assert_eq!(TileOffset(1, 2).add(TileOffset(3, -5)), TileOffset(4, -3));
    assert_eq!(TileOffset(1, 2).sub(TileOffset(3, -5)), TileOffset(-2, 7));
}

#[test]
fn actions_compare_by_value() {
    assert_eq!(Action::Move(Direction::North), Action::Move(Direction::North));
    assert_ne!(Action::Move(Direction::North), Action::DropBombAndMove(Direction::North));
}
