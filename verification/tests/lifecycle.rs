use bomber_lib::fuel::FUEL_PER_TICK;
use bomber_lib::game_map::TileLocation;
use bomber_lib::lifecycle::{start_module, Arena, SpawnOutcome, TurnReport};
use bomber_lib::player_hotswap::{PlayerHandle, MAX_PLAYERS};
use bomber_lib::sandbox::{MemoryLimits, Runtime, SandboxError};
use bomber_lib::turn::MoveRejection;
use bomber_lib::world::{
    Action, Direction, Enemy, LastTurnResult, Object, Ticks, Tile, TileOffset,
};

fn module(name: &str, act_body: &str) -> Vec<u8> {
    let length = name.len();
    let total = length + 8;
    format!(
        r#"(module
  (memory (export "memory") 1)
  (data (i32.const 2048) "\{length:02x}\00\00\00\00\00\00\00{name}")
  (func (export "__wasm_get_buffer_address") (result i32) (i32.const 4096))
  (func (export "__wasm_get_buffer_size") (result i32) (i32.const 10000))
  (func (export "__wasm_shim_name") (result i32)
    (memory.copy (i32.const 4096) (i32.const 2048) (i32.const {total}))
    (i32.const {total}))
  (func (export "__wasm_shim_team_name") (result i32)
    (memory.copy (i32.const 4096) (i32.const 2048) (i32.const {total}))
    (i32.const {total}))
  (func (export "__wasm_shim_act") (param i32 i32 i32 i32) (result i32) {act_body}))"#
    )
    .into_bytes()
}

const GO_NORTH: &str = "(i64.store (i32.const 4096) (i64.const 0x0000000100000000)) (i32.const 8)";
const GO_EAST_WITH_BOMB: &str =
    "(i64.store (i32.const 4096) (i64.const 0x0000000200000003)) (i32.const 8)";
const LOOP_FOREVER: &str = "(loop $l (br $l)) (i32.const 0)";

fn runtime() -> Runtime {
    let limits =
        MemoryLimits { reservation: 1 << 20, reservation_for_growth: 1 << 20, guard_size: 1 << 16 };
    Runtime::with_memory_limits(limits).unwrap()
}

/// A corridor running north from (1, 0) to (1, 3), walled in.
fn corridor() -> Vec<(TileLocation, Tile)> {
    let mut tiles = Vec::new();
    for x in 0..3 {
        for y in 0..5 {
            let tile = if x == 1 && y < 4 { Tile::Floor } else { Tile::Wall };
            tiles.push((TileLocation(x, y), tile));
        }
    }
    tiles
}

fn handles_of(arena: &Arena) -> Vec<PlayerHandle> {
    let list = arena.handle_list();
    (0..list.len()).map(|i| list.get(i).clone()).collect()
}

#[test]
fn a_new_module_gets_a_handle_and_then_an_agent() {
    let runtime = runtime();
    let mut arena = Arena::new();
    assert!(arena.reconcile(&vec![7]).is_empty());
    assert_eq!(handles_of(&arena), vec![PlayerHandle::ReadyToSpawn(7)]);
    assert_eq!(arena.agent_count(), 0);

    let plan = arena.plan_spawn(&vec![TileLocation(1, 0)], &vec![]);
    assert_eq!(plan, Some((7, TileLocation(1, 0))));
    let bytes = module("A name that is far too long", GO_NORTH);
    assert_eq!(arena.spawn(&runtime, 7, TileLocation(1, 0), &bytes), SpawnOutcome::Spawned);
    assert_eq!(arena.agent_count(), 1);
    let agent = arena.agent(0);
    assert_eq!(agent.module, 7);
    assert_eq!(agent.location, TileLocation(1, 0));
    assert_eq!(agent.name, "A name that is f");
    assert_eq!(agent.team, "A name that is far t");
    assert_eq!(agent.score, 0);
    assert_eq!(agent.fuel.total_consumed(), 0);
    assert_eq!(handles_of(&arena), vec![PlayerHandle::ReadyToSpawn(7)]);
}

#[test]
fn a_module_never_has_two_agents() {
    let runtime = runtime();
    let mut arena = Arena::new();
    arena.reconcile(&vec![7]);
    let bytes = module("Twin", GO_NORTH);
    assert_eq!(arena.spawn(&runtime, 7, TileLocation(1, 0), &bytes), SpawnOutcome::Spawned);
    assert_eq!(arena.spawn(&runtime, 7, TileLocation(1, 1), &bytes), SpawnOutcome::NotSpawnable);
    assert_eq!(arena.agent_count(), 1);
    assert_eq!(arena.next_spawn(), None);
    assert_eq!(arena.plan_spawn(&vec![TileLocation(1, 1)], &vec![]), None);
    // A module without a handle is not spawned either.
    assert_eq!(arena.spawn(&runtime, 8, TileLocation(1, 1), &bytes), SpawnOutcome::NotSpawnable);
    assert_eq!(arena.agent_count(), 1);
}

#[test]
fn a_module_that_does_not_compile_is_banned() {
    let runtime = runtime();
    let mut arena = Arena::new();
    arena.reconcile(&vec![7]);
    assert_eq!(arena.spawn(&runtime, 7, TileLocation(1, 0), b"junk"), SpawnOutcome::Banned);
    assert!(matches!(&handles_of(&arena)[0], PlayerHandle::Misbehaved(7, reason) if !reason.is_empty()));
    assert_eq!(arena.agent_count(), 0);
    assert_eq!(arena.next_spawn(), None);
}

#[test]
fn a_module_that_does_not_tell_its_name_is_banned() {
    let runtime = runtime();
    let mut arena = Arena::new();
    arena.reconcile(&vec![7]);
    let nameless = br#"(module (memory (export "memory") 1))"#;
    assert_eq!(arena.spawn(&runtime, 7, TileLocation(1, 0), nameless), SpawnOutcome::Banned);
    assert_eq!(
        handles_of(&arena),
        vec![PlayerHandle::Misbehaved(7, "name query failed".to_string())]
    );
    assert!(matches!(
        start_module(&runtime, nameless, FUEL_PER_TICK),
        Err(reason) if reason == "name query failed"
    ));
}

#[test]
fn a_module_that_loops_forever_is_banned() {
    let runtime = runtime();
    let mut arena = Arena::new();
    arena.reconcile(&vec![7, 8]);
    assert_eq!(
        arena.spawn(&runtime, 7, TileLocation(1, 0), &module("Hyperlooper", LOOP_FOREVER)),
        SpawnOutcome::Spawned
    );
    assert_eq!(
        arena.spawn(&runtime, 8, TileLocation(1, 2), &module("Mr North", GO_NORTH)),
        SpawnOutcome::Spawned
    );
    let reports = arena.run_turns(&corridor(), &vec![], 5);
    assert_eq!(reports.len(), 2);
    match &reports[0] {
        TurnReport::Banned { agent, reason } => {
            assert_eq!(agent.module, 7);
            assert_eq!(agent.name, "Hyperlooper");
            assert_eq!(reason, "out of fuel");
        },
        _ => panic!("the looping module was not banned"),
    }
    // The other agent's turn is not affected.
    assert!(matches!(
        &reports[1],
        TurnReport::Acted { action: Action::Move(Direction::North), .. }
    ));
    assert_eq!(
        handles_of(&arena),
        vec![
            PlayerHandle::Misbehaved(7, "out of fuel".to_string()),
            PlayerHandle::ReadyToSpawn(8)
        ]
    );
    assert_eq!(arena.agent_count(), 1);
    assert_eq!(arena.agent(0).module, 8);
    assert_eq!(arena.agent(0).location, TileLocation(1, 3));
    // A banned module takes no further turns.
    assert_eq!(arena.run_turns(&corridor(), &vec![], 5).len(), 1);
    assert_eq!(arena.next_spawn(), None);
}

#[test]
fn moving_north_onto_an_open_tile_advances_the_agent() {
    let runtime = runtime();
    let mut arena = Arena::new();
    arena.reconcile(&vec![7]);
    arena.spawn(&runtime, 7, TileLocation(1, 0), &module("Mr North", GO_NORTH));
    let occupied = arena.locations();
    let report = arena.take_turn(0, &corridor(), &vec![], &occupied, 5);
    match report {
        TurnReport::Acted { action, outcome, fuel } => {
            assert_eq!(action, Action::Move(Direction::North));
            assert_eq!(outcome.location, TileLocation(1, 1));
            assert_eq!(outcome.result, LastTurnResult::Moved(Direction::North));
            assert_eq!(outcome.bomb, None);
            assert_eq!(outcome.rejection, None);
            let used = fuel.unwrap();
            assert!(0 < used && used <= FUEL_PER_TICK);
            assert_eq!(arena.agent(0).fuel.total_consumed(), used);
            assert_eq!(arena.agent(0).fuel.consumed_since_top_up(), used);
        },
        _ => panic!("the agent did not act"),
    }
    assert_eq!(arena.agent(0).location, TileLocation(1, 1));
    assert_eq!(arena.agent(0).last_result, LastTurnResult::Moved(Direction::North));
}

#[test]
fn walking_into_a_wall_is_no_fault() {
    let runtime = runtime();
    let mut arena = Arena::new();
    arena.reconcile(&vec![7]);
    arena.spawn(&runtime, 7, TileLocation(1, 3), &module("Mr North", GO_NORTH));
    let reports = arena.run_turns(&corridor(), &vec![], 5);
    match &reports[0] {
        TurnReport::Acted { outcome, .. } => {
            assert_eq!(outcome.location, TileLocation(1, 3));
            assert_eq!(outcome.result, LastTurnResult::ActionFailed);
            assert_eq!(outcome.rejection, Some(MoveRejection::Blocked));
        },
        _ => panic!("the agent did not act"),
    }
    assert_eq!(arena.agent_count(), 1);
    assert_eq!(handles_of(&arena), vec![PlayerHandle::ReadyToSpawn(7)]);
}

#[test]
fn fuel_adds_up_over_the_turns() {
    let runtime = runtime();
    let mut arena = Arena::new();
    arena.reconcile(&vec![7]);
    arena.spawn(&runtime, 7, TileLocation(1, 0), &module("Mr North", GO_NORTH));
    let mut total = 0;
    for _ in 0..3 {
        let reports = arena.run_turns(&corridor(), &vec![], 5);
        match &reports[0] {
            TurnReport::Acted { fuel, .. } => total += fuel.unwrap(),
            _ => panic!("the agent did not act"),
        }
        assert_eq!(arena.agent(0).fuel.total_consumed(), total);
    }
}

#[test]
fn a_bomb_is_dropped_where_the_agent_stood() {
    let runtime = runtime();
    let mut arena = Arena::new();
    arena.reconcile(&vec![7]);
    arena.spawn(&runtime, 7, TileLocation(0, 0), &module("Bomber", GO_EAST_WITH_BOMB));
    let tiles = vec![(TileLocation(0, 0), Tile::Floor), (TileLocation(1, 0), Tile::Hill)];
    match &arena.run_turns(&tiles, &vec![], 5)[0] {
        TurnReport::Acted { action, outcome, .. } => {
            assert_eq!(*action, Action::DropBombAndMove(Direction::East));
            assert_eq!(outcome.location, TileLocation(1, 0));
            assert_eq!(outcome.bomb, Some(TileLocation(0, 0)));
        },
        _ => panic!("the agent did not act"),
    }
    // East of the hill there is no tile: the agent stays and drops nothing.
    match &arena.run_turns(&tiles, &vec![], 5)[0] {
        TurnReport::Acted { outcome, .. } => {
            assert_eq!(outcome.location, TileLocation(1, 0));
            assert_eq!(outcome.bomb, None);
            assert_eq!(outcome.rejection, Some(MoveRejection::NoTile));
        },
        _ => panic!("the agent did not act"),
    }
}

#[test]
fn banning_twice_is_banning_once() {
    let runtime = runtime();
    let mut arena = Arena::new();
    arena.reconcile(&vec![7, 8]);
    arena.spawn(&runtime, 7, TileLocation(1, 0), &module("Mr North", GO_NORTH));
    let removed = arena.ban(7, "first".to_string());
    assert_eq!(removed.map(|agent| agent.module), Some(7));
    let banned = vec![
        PlayerHandle::Misbehaved(7, "first".to_string()),
        PlayerHandle::ReadyToSpawn(8),
    ];
    assert_eq!(handles_of(&arena), banned);
    assert!(arena.ban(7, "second".to_string()).is_none());
    assert_eq!(handles_of(&arena), banned);
    assert_eq!(arena.agent_count(), 0);
    // Banning a module that is not there changes nothing.
    assert!(arena.ban(9, "nobody".to_string()).is_none());
    assert_eq!(handles_of(&arena), banned);
}

#[test]
fn a_dead_agent_respawns_after_exactly_three_world_ticks() {
    let runtime = runtime();
    let mut arena = Arena::new();
    arena.reconcile(&vec![7]);
    let bytes = module("Mr North", GO_NORTH);
    arena.spawn(&runtime, 7, TileLocation(1, 0), &bytes);
    arena.run_turns(&corridor(), &vec![], 5);
    let dead = arena.kill(7).unwrap();
    assert_eq!(dead.location, TileLocation(1, 1));
    assert_eq!(arena.agent_count(), 0);
    assert_eq!(handles_of(&arena), vec![PlayerHandle::Respawning(7, Ticks(3))]);
    assert_eq!(arena.spawn(&runtime, 7, TileLocation(1, 0), &bytes), SpawnOutcome::NotSpawnable);
    arena.world_tick();
    assert_eq!(handles_of(&arena), vec![PlayerHandle::Respawning(7, Ticks(2))]);
    arena.world_tick();
    assert_eq!(handles_of(&arena), vec![PlayerHandle::Respawning(7, Ticks(1))]);
    assert_eq!(arena.next_spawn(), None);
    arena.world_tick();
    assert_eq!(handles_of(&arena), vec![PlayerHandle::ReadyToSpawn(7)]);
    // No state survives death.
    assert_eq!(arena.spawn(&runtime, 7, TileLocation(1, 0), &bytes), SpawnOutcome::Spawned);
    assert_eq!(arena.agent(0).fuel.total_consumed(), 0);
    assert_eq!(arena.agent(0).location, TileLocation(1, 0));
    // Killing a module without an agent changes nothing.
    assert!(arena.kill(9).is_none());
    assert!(arena.kill(7).is_some());
    assert!(arena.kill(7).is_none());
    assert_eq!(handles_of(&arena), vec![PlayerHandle::Respawning(7, Ticks(3))]);
}

#[test]
fn a_changed_module_gets_a_second_chance() {
    let runtime = runtime();
    let mut arena = Arena::new();
    arena.reconcile(&vec![7, 8]);
    arena.spawn(&runtime, 7, TileLocation(1, 0), b"junk");
    assert!(matches!(&handles_of(&arena)[0], PlayerHandle::Misbehaved(7, _)));
    // A change of another module does not help.
    arena.unban(&vec![8]);
    assert!(matches!(&handles_of(&arena)[0], PlayerHandle::Misbehaved(7, _)));
    let fixed = module("Fixed", GO_NORTH);
    assert!(arena.module_changed(&runtime, 7, &fixed).is_none());
    assert_eq!(
        handles_of(&arena),
        vec![PlayerHandle::ReadyToSpawn(7), PlayerHandle::ReadyToSpawn(8)]
    );
    assert_eq!(arena.spawn(&runtime, 7, TileLocation(1, 0), &fixed), SpawnOutcome::Spawned);
    assert_eq!(arena.agent(0).name, "Fixed");
}

#[test]
fn a_changed_module_takes_its_agent_over_in_place() {
    let runtime = runtime();
    let mut arena = Arena::new();
    arena.reconcile(&vec![7, 8]);
    arena.spawn(&runtime, 7, TileLocation(1, 0), &module("Before", GO_NORTH));
    arena.spawn(&runtime, 8, TileLocation(1, 3), &module("Other", GO_NORTH));
    arena.run_turns(&corridor(), &vec![], 5);
    arena.set_score(0, 42);
    let used = arena.agent(0).fuel.total_consumed();
    assert!(arena.module_changed(&runtime, 7, &module("After", LOOP_FOREVER)).is_none());
    assert_eq!(arena.agent_count(), 2);
    let agent = arena.agent(0);
    assert_eq!(agent.module, 7);
    assert_eq!(agent.name, "After");
    assert_eq!(agent.team, "Before");
    assert_eq!(agent.location, TileLocation(1, 1));
    assert_eq!(agent.score, 42);
    assert_eq!(agent.fuel.total_consumed(), used);
    assert_eq!(arena.agent(1).name, "Other");
    // The new module decides from now on.
    assert!(matches!(&arena.run_turns(&corridor(), &vec![], 5)[0], TurnReport::Banned { .. }));
}

#[test]
fn a_changed_module_that_no_longer_starts_is_banned() {
    let runtime = runtime();
    let mut arena = Arena::new();
    arena.reconcile(&vec![7]);
    arena.spawn(&runtime, 7, TileLocation(1, 0), &module("Before", GO_NORTH));
    let removed = arena.module_changed(&runtime, 7, br#"(module (memory (export "memory") 1))"#);
    assert_eq!(removed.map(|agent| agent.name), Some("Before".to_string()));
    assert_eq!(arena.agent_count(), 0);
    assert_eq!(
        handles_of(&arena),
        vec![PlayerHandle::Misbehaved(7, "name query failed".to_string())]
    );
}

#[test]
fn agents_of_vanished_modules_leave_at_once() {
    let runtime = runtime();
    let mut arena = Arena::new();
    arena.reconcile(&vec![7, 8, 9]);
    arena.spawn(&runtime, 7, TileLocation(1, 0), &module("Seven", GO_NORTH));
    arena.spawn(&runtime, 8, TileLocation(1, 1), &module("Eight", GO_NORTH));
    arena.spawn(&runtime, 9, TileLocation(1, 2), b"junk");
    let despawned = arena.reconcile(&vec![10, 8, 10]);
    assert_eq!(despawned.iter().map(|agent| agent.module).collect::<Vec<_>>(), vec![7]);
    assert_eq!(
        handles_of(&arena),
        vec![PlayerHandle::ReadyToSpawn(8), PlayerHandle::ReadyToSpawn(10)]
    );
    assert_eq!(arena.agent_count(), 1);
    assert_eq!(arena.agent(0).name, "Eight");
    assert_eq!(arena.next_spawn(), Some(10));
}

#[test]
fn the_list_holds_no_more_handles_than_it_may() {
    let mut arena = Arena::new();
    let present: Vec<u64> = (0..20).collect();
    arena.reconcile(&present);
    assert_eq!(arena.handle_list().len(), MAX_PLAYERS);
    let expected: Vec<PlayerHandle> = (0..12).map(PlayerHandle::ReadyToSpawn).collect();
    assert_eq!(handles_of(&arena), expected);
    // Slots that free up are taken by the modules that waited.
    let later: Vec<u64> = (6..20).collect();
    arena.reconcile(&later);
    let expected: Vec<PlayerHandle> = (6..18).map(PlayerHandle::ReadyToSpawn).collect();
    assert_eq!(handles_of(&arena), expected);
}

#[test]
fn agents_see_their_rivals_and_never_themselves() {
    let runtime = runtime();
    let mut arena = Arena::new();
    arena.reconcile(&vec![7, 8]);
    arena.spawn(&runtime, 7, TileLocation(1, 0), &module("Seven", GO_NORTH));
    arena.spawn(&runtime, 8, TileLocation(1, 2), &module("Eight", GO_NORTH));
    arena.set_score(1, 5);
    let rivals = arena.rivals_of(0);
    assert_eq!(rivals.len(), 1);
    assert_eq!(rivals[0].0, TileLocation(1, 2));
    assert_eq!(rivals[0].1.name, "Eight");
    assert_eq!(rivals[0].1.team_name, "Eight");
    assert_eq!(rivals[0].1.score, 5);
    let rivals = arena.rivals_of(1);
    assert_eq!(rivals.len(), 1);
    assert_eq!(rivals[0].1.name, "Seven");
}

#[test]
fn a_decision_that_came_with_an_error_is_sorted() {
    let runtime = runtime();
    let mut arena = Arena::new();
    arena.reconcile(&vec![7]);
    arena.spawn(&runtime, 7, TileLocation(1, 0), &module("Seven", GO_NORTH));
    let tiles = corridor();
    let skipped =
        arena.conclude_turn(0, Err(SandboxError::BufferTooSmall), Some(5), &tiles, &vec![], &vec![]);
    assert!(matches!(skipped, TurnReport::Skipped));
    assert_eq!(arena.agent_count(), 1);
    // More fuel left than was granted: the books do not add up.
    let acted = arena.conclude_turn(
        0,
        Ok(Action::DropBomb),
        Some(FUEL_PER_TICK + 1),
        &tiles,
        &vec![(TileLocation(1, 0), Object::Crate)],
        &vec![],
    );
    match acted {
        TurnReport::Acted { outcome, fuel, .. } => {
            assert_eq!(outcome.bomb, Some(TileLocation(1, 0)));
            assert!(fuel.is_err());
        },
        _ => panic!("the agent did not act"),
    }
    assert_eq!(arena.agent(0).fuel.total_consumed(), 0);
    let banned =
        arena.conclude_turn(0, Err(SandboxError::MalformedPayload), None, &tiles, &vec![], &vec![]);
    assert!(matches!(banned, TurnReport::Banned { reason, .. } if reason == "malformed payload"));
    assert_eq!(arena.agent_count(), 0);
}

#[test]
fn the_fuel_for_a_turn_can_be_chosen() {
    let runtime = runtime();
    let bytes = module("Thrifty", GO_NORTH);
    assert_eq!(Arena::new().fuel_budget(), FUEL_PER_TICK);
    // On a budget of one unit of fuel a module cannot even tell its name.
    let mut poor = Arena::with_fuel_budget(1);
    poor.reconcile(&vec![7]);
    assert_eq!(poor.spawn(&runtime, 7, TileLocation(1, 0), &bytes), SpawnOutcome::Banned);
    assert_eq!(
        handles_of(&poor),
        vec![PlayerHandle::Misbehaved(7, "name query failed".to_string())]
    );
    let mut modest = Arena::with_fuel_budget(1000);
    assert_eq!(modest.fuel_budget(), 1000);
    modest.reconcile(&vec![7]);
    assert_eq!(modest.spawn(&runtime, 7, TileLocation(1, 0), &bytes), SpawnOutcome::Spawned);
    match &modest.run_turns(&corridor(), &vec![], 5)[0] {
        TurnReport::Acted { fuel, .. } => assert!(fuel.unwrap() <= 1000),
        _ => panic!("the agent did not act"),
    }
}

#[test]
fn a_turn_books_what_the_store_lost() {
    let runtime = runtime();
    let bytes = module("Thrifty", GO_NORTH);
    let mut arena = Arena::with_fuel_budget(5000);
    arena.reconcile(&vec![7]);
    assert_eq!(arena.spawn(&runtime, 7, TileLocation(1, 0), &bytes), SpawnOutcome::Spawned);
    let mut total = 0;
    for _ in 0..3 {
        let report = arena.take_turn(0, &corridor(), &vec![], &vec![], 5);
        let left = arena.agent(0).sandbox.fuel_left().unwrap();
        assert!(left < 5000);
        match report {
            TurnReport::Acted { fuel, .. } => {
                assert_eq!(fuel, Ok(5000 - left));
                total += 5000 - left;
            },
            _ => panic!("the agent did not act"),
        }
        assert_eq!(arena.agent(0).fuel.total_consumed(), total);
        assert_eq!(arena.agent(0).fuel.consumed_since_top_up(), 5000 - left);
    }
}

#[test]
fn each_report_is_of_the_agent_that_stood_at_its_place() {
    let runtime = runtime();
    let mut tiles = Vec::new();
    for x in 0..7 {
        for y in 0..3 {
            tiles.push((TileLocation(x, y), Tile::Floor));
        }
    }
    let mut arena = Arena::with_fuel_budget(100_000);
    arena.reconcile(&vec![1, 2, 3, 4]);
    let bodies = [GO_NORTH, LOOP_FOREVER, GO_EAST_WITH_BOMB, "unreachable"];
    for (k, body) in bodies.iter().enumerate() {
        let id = k as u64 + 1;
        let bytes = module(&format!("Agent {id}"), body);
        assert_eq!(arena.spawn(&runtime, id, TileLocation(2 * k, 0), &bytes), SpawnOutcome::Spawned);
    }
    let reports = arena.run_turns(&tiles, &vec![], 5);
    assert_eq!(reports.len(), 4);
    match &reports[0] {
        TurnReport::Acted { action, outcome, fuel } => {
            assert_eq!(*action, Action::Move(Direction::North));
            assert_eq!(outcome.location, TileLocation(0, 1));
            assert_eq!(*fuel, Ok(100_000 - arena.agent(0).sandbox.fuel_left().unwrap()));
        },
        _ => panic!("the first agent did not act"),
    }
    match &reports[1] {
        TurnReport::Banned { agent, reason } => {
            assert_eq!(agent.module, 2);
            assert_eq!(agent.location, TileLocation(2, 0));
            assert_eq!(reason, "out of fuel");
        },
        _ => panic!("the second agent was not banned"),
    }
    match &reports[2] {
        TurnReport::Acted { action, outcome, .. } => {
            assert_eq!(*action, Action::DropBombAndMove(Direction::East));
            assert_eq!(outcome.location, TileLocation(5, 0));
            assert_eq!(outcome.bomb, Some(TileLocation(4, 0)));
        },
        _ => panic!("the third agent did not act"),
    }
    match &reports[3] {
        TurnReport::Banned { agent, .. } => assert_eq!(agent.module, 4),
        _ => panic!("the fourth agent was not banned"),
    }
    // Those that were not banned stand in their old order, each where its
    // report says.
    assert_eq!(arena.agent_count(), 2);
    assert_eq!(arena.agent(0).module, 1);
    assert_eq!(arena.agent(0).location, TileLocation(0, 1));
    assert_eq!(arena.agent(0).last_result, LastTurnResult::Moved(Direction::North));
    assert_eq!(arena.agent(1).module, 3);
    assert_eq!(arena.agent(1).location, TileLocation(5, 0));
    let handles = handles_of(&arena);
    assert_eq!(handles[0], PlayerHandle::ReadyToSpawn(1));
    assert_eq!(handles[1], PlayerHandle::Misbehaved(2, "out of fuel".to_string()));
    assert_eq!(handles[2], PlayerHandle::ReadyToSpawn(3));
    assert!(matches!(&handles[3], PlayerHandle::Misbehaved(4, _)));
}

#[test]
fn an_agent_begins_its_turn_with_the_full_budget_and_its_view() {
    let runtime = runtime();
    let mut arena = Arena::with_fuel_budget(7000);
    arena.reconcile(&vec![1, 2]);
    assert_eq!(
        arena.spawn(&runtime, 1, TileLocation(1, 0), &module("One", GO_NORTH)),
        SpawnOutcome::Spawned
    );
    assert_eq!(
        arena.spawn(&runtime, 2, TileLocation(1, 2), &module("Two", GO_NORTH)),
        SpawnOutcome::Spawned
    );
    // Starting up and telling its names has cost the module some fuel.
    assert!(arena.agent(0).sandbox.fuel_left().unwrap() < 7000);
    let view = arena.begin_turn(0, &corridor(), &vec![], 2);
    assert_eq!(arena.agent(0).sandbox.fuel_left(), Some(7000));
    assert_eq!(arena.agent(0).fuel.consumed_since_top_up(), 0);
    assert_eq!(arena.agent(0).location, TileLocation(1, 0));
    assert_eq!(arena.agent_count(), 2);
    // Within two steps of (1, 0): the corridor up to (1, 2) and the walls
    // around its foot.
    let mut offsets: Vec<TileOffset> = view.iter().map(|s| s.3).collect();
    offsets.sort();
    assert_eq!(
        offsets,
        vec![
            TileOffset(-1, 0),
            TileOffset(-1, 1),
            TileOffset(0, 0),
            TileOffset(0, 1),
            TileOffset(0, 2),
            TileOffset(1, 0),
            TileOffset(1, 1),
        ]
    );
    let ahead = view.iter().find(|s| s.3 == TileOffset(0, 2)).unwrap();
    assert_eq!(ahead.0, Tile::Floor);
    assert_eq!(
        ahead.2,
        Some(Enemy { name: "Two".to_string(), team_name: "Two".to_string(), score: 0 })
    );
    assert_eq!(view.iter().filter(|s| s.2.is_some()).count(), 1);
    let own = view.iter().find(|s| s.3 == TileOffset(0, 0)).unwrap();
    assert_eq!((own.0, own.2.clone()), (Tile::Floor, None));
}

#[test]
fn the_first_module_in_the_list_is_next_to_spawn() {
    let runtime = runtime();
    let mut arena = Arena::new();
    arena.reconcile(&vec![5, 6, 7]);
    let spawners = vec![TileLocation(1, 0), TileLocation(1, 3)];
    assert_eq!(arena.plan_spawn(&spawners, &vec![]).map(|plan| plan.0), Some(5));
    arena.ban(5, "no good".to_string());
    assert_eq!(arena.plan_spawn(&spawners, &vec![]).map(|plan| plan.0), Some(6));
    assert_eq!(
        arena.spawn(&runtime, 6, TileLocation(1, 0), &module("Six", GO_NORTH)),
        SpawnOutcome::Spawned
    );
    assert_eq!(arena.plan_spawn(&spawners, &vec![]), Some((7, TileLocation(1, 3))));
}
