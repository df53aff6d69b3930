use bomber_lib::planner::{
    all_possible_actions, all_possible_plans, bombs, empty_tiles, in_range_of_bomb,
    iterative_explosions, simulate_turn, tiles_between, Bomb, Bomber, MultiTurnPlan,
};
use bomber_lib::player::Player;
use bomber_lib::world::{
    Action, Direction, Enemy, LastTurnResult, Object, PowerUp, Ticks, Tile, TileOffset,
};
use std::cmp::Ordering;

#[test]
fn tiles_between_in_orthogonal_direction() {
    assert_eq!(
        tiles_between(TileOffset(3, 3), TileOffset(5, 3)).unwrap(),
        vec![TileOffset(4, 3)]
    );
    assert_eq!(
        tiles_between(TileOffset(3, 8), TileOffset(3, 3)).unwrap(),
        vec![TileOffset(3, 4), TileOffset(3, 5), TileOffset(3, 6), TileOffset(3, 7),]
    );
    assert!(tiles_between(TileOffset(3, 8), TileOffset(4, 5)).is_err());
    assert_eq!(
        tiles_between(TileOffset(3, 8), TileOffset(3, 8)).unwrap(),
        vec![] // identical
    );
}

#[test]
fn sorting_plans() {
    let mut plans = vec![
        MultiTurnPlan {
            first_action: Action::Move(Direction::North),
            final_surroundings: vec![],
        },
        MultiTurnPlan { first_action: Action::DropBomb, final_surroundings: vec![] },
    ];

    plans.sort_by(
        |&MultiTurnPlan { first_action: a, .. }, &MultiTurnPlan { first_action: b, .. }| match (
            a, b,
        ) {
            (
                Action::DropBomb | Action::DropBombAndMove(_),
                Action::Move(_) | Action::StayStill,
            ) => Ordering::Less,
            (
                Action::DropBomb | Action::DropBombAndMove(_),
                Action::DropBomb | Action::DropBombAndMove(_),
            ) => Ordering::Equal,
            (Action::StayStill | Action::Move(_), Action::StayStill | Action::Move(_)) => {
                Ordering::Equal
            },
            (
                Action::Move(_) | Action::StayStill,
                Action::DropBomb | Action::DropBombAndMove(_),
            ) => Ordering::Greater,
        },
    );

    assert_eq!(plans[0].first_action, Action::DropBomb)
}

#[test]
fn bomb_ranges() {
    let surroundings: Vec<(Tile, Option<Object>, Option<Enemy>, TileOffset)> = vec![
        (
            Tile::Floor,
            Some(Object::Bomb { fuse_remaining: Ticks(0), range: 3 }),
            None,
            TileOffset(-2, 1),
        ),
        (Tile::Floor, None, None, TileOffset(-1, 1)),
        (Tile::Floor, None, None, TileOffset(0, 1)),
        (
            Tile::Floor,
            Some(Object::Bomb { fuse_remaining: Ticks(2), range: 3 }),
            None,
            TileOffset(1, 1),
        ),
        (Tile::Floor, None, None, TileOffset(0, 1)),
        (
            Tile::Floor,
            Some(Object::Bomb { fuse_remaining: Ticks(2), range: 3 }),
            None,
            TileOffset(1, 2),
        ),
        (Tile::Wall, None, None, TileOffset(2, 1)),
        (Tile::Floor, Some(Object::Crate), None, TileOffset(3, 1)),
    ];

    let bombs = bombs(&surroundings);
    let empty_tiles = empty_tiles(&surroundings);
    let mut bombs_about_to_explode: Vec<Bomb> =
        bombs.iter().cloned().filter(|(Ticks(t), _, _)| *t == 0).collect();

    // iteratively add all bombs that will be triggered by bombs about to explode.
    iterative_explosions(&mut bombs_about_to_explode, &bombs, &empty_tiles);
    assert_eq!(bombs_about_to_explode.len(), 3);
    assert_eq!(bombs_about_to_explode[0].2, TileOffset(-2, 1));
    assert_eq!(bombs_about_to_explode[1].2, TileOffset(1, 1));
    assert_eq!(bombs_about_to_explode[2].2, TileOffset(1, 2));
}

#[test]
fn sample_turn() {
    // "XX.XX"    X = wall,  P = player
    // ".BP.X"    . = empty, B = bomb
    // "XXXXX"
    // surroundings: Vec<(Tile, Option<Object>, Option<Enemy>, TileOffset)>,
    let surroundings: Vec<(Tile, Option<Object>, Option<Enemy>, TileOffset)> =
        vec![
            (Tile::Wall, None, None, TileOffset(-2, 1)),
            (Tile::Wall, None, None, TileOffset(-1, 1)),
            (Tile::Floor, None, None, TileOffset(0, 1)),
            (Tile::Wall, None, None, TileOffset(1, 1)),
            (Tile::Wall, None, None, TileOffset(2, 1)),

            (Tile::Floor, None, None, TileOffset(-2, 0)),
            (Tile::Floor, Some(Object::Bomb { fuse_remaining: Ticks(0), range: 3}), None, TileOffset(-1, 0)),
            (Tile::Floor, None, None, TileOffset(0, 0)),
            (Tile::Floor, None, None, TileOffset(1, 0)),
            (Tile::Wall, None, None, TileOffset(2, 0)),
            
            
            (Tile::Wall, None, None, TileOffset(-2, -1)),
            (Tile::Wall, None, None, TileOffset(-1, -1)),
            (Tile::Wall, None, None, TileOffset(0, -1)),
            (Tile::Wall, None, None, TileOffset(1, -1)),
            (Tile::Wall, None, None, TileOffset(2, -1)),
        ];

    let mut player = Bomber { boring_tiles: vec![] };
    let decision = player.act(surroundings, LastTurnResult::StoodStill);
    assert_eq!(decision, Action::Move(Direction::North));
}

fn floor(x: i32, y: i32) -> (Tile, Option<Object>, Option<Enemy>, TileOffset) {
    (Tile::Floor, None, None, TileOffset(x, y))
}

fn row(from: i32, to: i32) -> Vec<(Tile, Option<Object>, Option<Enemy>, TileOffset)> {
    (from..=to).map(|x| floor(x, 0)).collect()
}

#[test]
fn neighbouring_tiles_have_nothing_between_them() {
    assert_eq!(tiles_between(TileOffset(0, 0), TileOffset(0, 1)).unwrap(), vec![]);
    assert_eq!(tiles_between(TileOffset(-1, 0), TileOffset(0, 0)).unwrap(), vec![]);
    assert_eq!(
        tiles_between(TileOffset(i32::MAX, 0), TileOffset(i32::MAX - 2, 0)).unwrap(),
        vec![TileOffset(i32::MAX - 1, 0)]
    );
}

#[test]
fn a_bomb_reaches_along_empty_tiles_as_far_as_its_range() {
    let empty: Vec<TileOffset> = (0..10).map(|x| TileOffset(x, 0)).collect();
    let bomb = TileOffset(0, 0);
    assert!(in_range_of_bomb(TileOffset(0, 0), bomb, 0, &empty));
    assert!(in_range_of_bomb(TileOffset(1, 0), bomb, 0, &empty));
    assert!(!in_range_of_bomb(TileOffset(2, 0), bomb, 0, &empty));
    assert!(in_range_of_bomb(TileOffset(4, 0), bomb, 3, &empty));
    assert!(!in_range_of_bomb(TileOffset(5, 0), bomb, 3, &empty));
    assert!(!in_range_of_bomb(TileOffset(1, 1), bomb, 3, &empty));
    // Something in the way stops the blast.
    let gap: Vec<TileOffset> = vec![TileOffset(1, 0), TileOffset(3, 0)];
    assert!(in_range_of_bomb(TileOffset(2, 0), bomb, 3, &gap));
    assert!(!in_range_of_bomb(TileOffset(3, 0), bomb, 3, &gap));
    // Far apart tiles are told apart without walking the way between them.
    assert!(!in_range_of_bomb(TileOffset(i32::MIN, 0), TileOffset(i32::MAX, 0), u32::MAX - 2, &empty));
}

#[test]
fn walkable_tiles_and_bombs_are_found() {
    let view = vec![
        floor(0, 0),
        (Tile::Wall, None, None, TileOffset(1, 0)),
        (Tile::Hill, Some(Object::PowerUp(PowerUp::BombRange)), None, TileOffset(2, 0)),
        (Tile::Floor, Some(Object::Crate), None, TileOffset(3, 0)),
        (
            Tile::Floor,
            None,
            Some(Enemy { name: "x".into(), team_name: "y".into(), score: 0 }),
            TileOffset(4, 0),
        ),
        (Tile::Floor, Some(Object::Bomb { fuse_remaining: Ticks(1), range: 2 }), None, TileOffset(5, 0)),
    ];
    assert_eq!(empty_tiles(&view), vec![TileOffset(0, 0), TileOffset(2, 0)]);
    assert_eq!(bombs(&view), vec![(Ticks(1), 2, TileOffset(5, 0))]);
}

#[test]
fn there_are_ten_actions() {
    let actions = all_possible_actions();
    assert_eq!(actions.len(), 10);
    assert_eq!(actions[0], Action::DropBombAndMove(Direction::East));
    assert_eq!(actions[8], Action::StayStill);
    assert_eq!(actions[9], Action::DropBomb);
}

#[test]
fn a_simulated_move_shifts_the_view_and_ticks_the_bombs() {
    let mut view = row(-1, 2);
    view[2].1 = Some(Object::Bomb { fuse_remaining: Ticks(2), range: 1 });
    let next = simulate_turn(&view, Action::Move(Direction::West)).next_turn_surroundings.unwrap();
    let offsets: Vec<TileOffset> = next.iter().map(|s| s.3).collect();
    assert_eq!(offsets, vec![TileOffset(0, 0), TileOffset(1, 0), TileOffset(2, 0), TileOffset(3, 0)]);
    assert_eq!(next[2].1, Some(Object::Bomb { fuse_remaining: Ticks(1), range: 1 }));
    // Moving onto the bomb is not survived: the tile is not walkable.
    assert!(simulate_turn(&view, Action::Move(Direction::East)).next_turn_surroundings.is_none());
    assert!(simulate_turn(&next, Action::Move(Direction::East)).next_turn_surroundings.is_some());
    // Moving where no tile is seen is not survived either.
    assert!(simulate_turn(&view, Action::Move(Direction::North)).next_turn_surroundings.is_none());
}

#[test]
fn a_dropped_bomb_lies_where_the_player_stood() {
    let view = row(-1, 1);
    let next = simulate_turn(&view, Action::DropBombAndMove(Direction::East))
        .next_turn_surroundings
        .unwrap();
    assert_eq!(next[1].3, TileOffset(-1, 0));
    assert_eq!(next[1].1, Some(Object::Bomb { fuse_remaining: Ticks(1), range: 3 }));
    assert_eq!(next[2], floor(0, 0));
    // Dropping a bomb and standing on it is not survived: the tile is solid now.
    assert!(simulate_turn(&view, Action::DropBomb).next_turn_surroundings.is_none());
}

#[test]
fn explosions_clear_bombs_and_crates_and_kill() {
    let mut view = row(-3, 3);
    view[1].1 = Some(Object::Bomb { fuse_remaining: Ticks(0), range: 0 });
    view[0].1 = Some(Object::Crate);
    view[6].1 = Some(Object::Crate);
    // The bomb two tiles to the west reaches its neighbours only: the player
    // is safe, the crate next to the bomb is gone, the far one stays.
    let next = simulate_turn(&view, Action::StayStill).next_turn_surroundings.unwrap();
    assert_eq!(next[1].1, None);
    assert_eq!(next[0].1, None);
    assert_eq!(next[6].1, Some(Object::Crate));
    // One tile closer the blast reaches the player.
    assert!(simulate_turn(&view, Action::Move(Direction::West)).next_turn_surroundings.is_none());
    view[1].1 = Some(Object::Bomb { fuse_remaining: Ticks(0), range: 1 });
    assert!(simulate_turn(&view, Action::StayStill).next_turn_surroundings.is_none());
    assert!(simulate_turn(&view, Action::Move(Direction::East)).next_turn_surroundings.is_some());
}

#[test]
fn plans_are_continued_and_tell_where_they_lead() {
    let plan = MultiTurnPlan { first_action: Action::Move(Direction::East), final_surroundings: row(0, 2) };
    assert_eq!(plan.next_position(), TileOffset(1, 0));
    assert_eq!(plan.final_tile(), &floor(0, 0));
    assert_eq!(plan.final_terrain(), Some(Tile::Floor));
    let longer = plan.continue_with(Action::Move(Direction::East)).unwrap();
    assert_eq!(longer.first_action, Action::Move(Direction::East));
    assert_eq!(longer.final_tile(), &floor(0, 0));
    assert_eq!(longer.final_surroundings[0].3, TileOffset(-1, 0));
    assert!(longer.continue_with(Action::Move(Direction::North)).is_none());
    let still = MultiTurnPlan { first_action: Action::DropBomb, final_surroundings: vec![] };
    assert_eq!(still.next_position(), TileOffset(0, 0));
    assert_eq!(still.final_terrain(), None);
}

#[test]
fn on_a_single_tile_all_plans_stay_still() {
    let plans = all_possible_plans(&vec![floor(0, 0)]);
    assert_eq!(plans.len(), 1);
    assert_eq!(plans[0].first_action, Action::StayStill);
    assert!(all_possible_plans(&vec![]).is_empty());
}

#[test]
fn without_a_plan_the_player_stays_still() {
    let mut player = Bomber::default();
    assert_eq!(player.decide(vec![]), Action::StayStill);
    assert!(player.boring_tiles.is_empty());
    let wall = vec![(Tile::Wall, None, None, TileOffset(0, 0))];
    assert_eq!(player.decide(wall), Action::StayStill);
    assert_eq!(player.boring_tiles, vec![TileOffset(0, 0)]);
}

/// A crossing with an arm to the east and one to the west, each with a
/// corner to hide behind.
fn crossing() -> Vec<(Tile, Option<Object>, Option<Enemy>, TileOffset)> {
    vec![
        floor(0, 0),
        floor(1, 0),
        floor(1, 1),
        floor(1, 2),
        floor(-1, 0),
        floor(-1, 1),
        floor(-1, 2),
    ]
}

#[test]
fn in_a_corridor_without_cover_no_bomb_is_dropped() {
    let mut player = Bomber::new();
    assert_eq!(player.decide(row(-5, 5)), Action::Move(Direction::East));
    assert_eq!(player.boring_tiles, vec![TileOffset(-1, 0)]);
}

#[test]
fn the_player_prefers_bombing_then_new_ground_then_hills_then_power_ups() {
    // With cover in reach, the player drops a bomb and runs east, the first
    // of the bombing moves that it survives.
    let mut player = Bomber::new();
    assert_eq!(player.decide(crossing()), Action::DropBombAndMove(Direction::East));
    assert_eq!(player.boring_tiles, vec![TileOffset(-1, 0)]);
    // Tiles it has been on are boring.
    let mut player = Bomber { boring_tiles: vec![TileOffset(1, 0)] };
    assert_eq!(player.decide(crossing()), Action::DropBombAndMove(Direction::West));
    assert_eq!(player.boring_tiles, vec![TileOffset(2, 0), TileOffset(1, 0)]);
    // A hill to end up on beats new ground.
    let mut hilly = crossing();
    hilly.push((Tile::Hill, None, None, TileOffset(1, 3)));
    let mut player = Bomber { boring_tiles: vec![TileOffset(1, 0)] };
    assert_eq!(player.decide(hilly.clone()), Action::DropBombAndMove(Direction::East));
    // A power-up to step on beats the hill.
    hilly[4].1 = Some(Object::PowerUp(PowerUp::VisionRange));
    let mut player = Bomber { boring_tiles: vec![] };
    assert_eq!(player.decide(hilly.clone()), Action::DropBombAndMove(Direction::West));
    // On a hill nothing is noted as boring.
    hilly[0].0 = Tile::Hill;
    let mut player = Bomber { boring_tiles: vec![] };
    player.decide(hilly);
    assert!(player.boring_tiles.is_empty());
}

#[test]
fn the_planner_plays_by_the_contract_of_players() {
    let mut player = Bomber::default();
    assert_eq!(Player::act(&mut player, vec![], LastTurnResult::StoodStill), Action::StayStill);
    assert_eq!(player.name(), "unsafe{!}");
    assert_eq!(<Bomber as Player>::team_name(), "Asbestos");
}
