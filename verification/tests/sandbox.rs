use bomber_lib::buffer::{SharedBuffer, Span};
use bomber_lib::codec::{encode_last_turn, encode_view};
use bomber_lib::player::{wasm_act, wasm_name, wasm_team_name};
use bomber_lib::sandbox::{
    argument_words, buffer_named, MemoryLimits, Runtime, Sandbox, SandboxError, Settings,
};
use bomber_lib::world::{Action, Direction, LastTurnResult, Tile, TileOffset};

const NORTH: &str = r#"(module
  (memory (export "memory") 1)
  (data (i32.const 2048) "\08\00\00\00\00\00\00\00Mr North")
  (data (i32.const 2080) "\09\00\00\00\00\00\00\00Northward")
  (func (export "__wasm_get_buffer_address") (result i32) (i32.const 1024))
  (func (export "__wasm_get_buffer_size") (result i32) (i32.const 1000))
  (func (export "__wasm_shim_name") (result i32)
    (memory.copy (i32.const 1024) (i32.const 2048) (i32.const 16))
    (i32.const 16))
  (func (export "__wasm_shim_team_name") (result i32)
    (memory.copy (i32.const 1024) (i32.const 2080) (i32.const 17))
    (i32.const 17))
  (func (export "__wasm_shim_act") (param i32 i32 i32 i32) (result i32)
    (i64.store (i32.const 1024) (i64.const 0x0000000100000000))
    (i32.const 8))
  (func (export "idle")))"#;

/// Drops a bomb when it is shown exactly two sightings, told that it stood
/// still, and handed the two arguments one behind the other; stays still
/// otherwise.
const WITNESS: &str = r#"(module
  (memory (export "memory") 1)
  (func (export "__wasm_get_buffer_address") (result i32) (i32.const 1024))
  (func (export "__wasm_get_buffer_size") (result i32) (i32.const 1000))
  (func (export "__wasm_shim_act")
    (param $view i32) (param $last i32) (param $view_len i32) (param $last_len i32)
    (result i32)
    (i32.store (i32.const 1024)
      (select (i32.const 2) (i32.const 1)
        (i32.and
          (i32.and
            (i64.eq (i64.load (local.get $view)) (i64.const 2))
            (i32.eq (i32.load (local.get $last)) (i32.const 1)))
          (i32.and
            (i32.eq (local.get $view) (i32.const 1024))
            (i32.and
              (i32.eq (local.get $last) (i32.add (local.get $view) (local.get $view_len)))
              (i32.eq (local.get $last_len) (i32.const 4)))))))
    (i32.const 4)))"#;

fn module_with_act(act_body: &str, capacity: u32, address: u32) -> String {
    format!(
        r#"(module
  (memory (export "memory") 1)
  (func (export "__wasm_get_buffer_address") (result i32) (i32.const {address}))
  (func (export "__wasm_get_buffer_size") (result i32) (i32.const {capacity}))
  (func (export "__wasm_shim_name") (result i32) {act_body})
  (func (export "__wasm_shim_act") (param i32 i32 i32 i32) (result i32) {act_body}))"#
    )
}

fn runtime() -> Runtime {
    let limits =
        MemoryLimits { reservation: 1 << 20, reservation_for_growth: 1 << 20, guard_size: 1 << 16 };
    Runtime::with_memory_limits(limits).unwrap()
}

fn start(text: &str, fuel: u64) -> Sandbox {
    let runtime = runtime();
    let module = runtime.compile(text.as_bytes()).unwrap();
    runtime.instantiate(&module, fuel).unwrap()
}

fn small_view() -> Vec<bomber_lib::world::Sighting> {
    vec![(Tile::Floor, None, None, TileOffset(0, 0)), (Tile::Wall, None, None, TileOffset(0, 1))]
}

#[test]
fn a_module_tells_its_names() {
    let mut sandbox = start(NORTH, 1_000_000);
    assert_eq!(wasm_name(&mut sandbox).unwrap(), "Mr North");
    assert_eq!(wasm_team_name(&mut sandbox).unwrap(), "Northward");
}

#[test]
fn a_module_decides() {
    let mut sandbox = start(NORTH, 1_000_000);
    let action = wasm_act(&mut sandbox, &small_view(), LastTurnResult::StoodStill).unwrap();
    assert_eq!(action, Action::Move(Direction::North));
}

#[test]
fn arguments_reach_the_module_through_its_buffer() {
    let mut sandbox = start(WITNESS, 1_000_000);
    let seen = wasm_act(&mut sandbox, &small_view(), LastTurnResult::StoodStill).unwrap();
    assert_eq!(seen, Action::DropBomb);
    let other_outcome = wasm_act(&mut sandbox, &small_view(), LastTurnResult::ActionFailed);
    assert_eq!(other_outcome.unwrap(), Action::StayStill);
    let other_view = wasm_act(&mut sandbox, &vec![], LastTurnResult::StoodStill);
    assert_eq!(other_view.unwrap(), Action::StayStill);
}

#[test]
fn written_arguments_stand_in_memory_one_behind_the_other() {
    let mut sandbox = start(NORTH, 1_000_000);
    let buffer = sandbox.buffer().unwrap();
    assert_eq!(buffer, SharedBuffer { address: 1024, capacity: 1000 });
    let view = encode_view(&small_view());
    let last = encode_last_turn(LastTurnResult::Moved(Direction::East));
    let spans = sandbox.write_arguments(buffer, &vec![view.clone(), last.clone()]).unwrap();
    assert_eq!(spans.len(), 2);
    assert_eq!((spans[0].address, spans[0].length), (1024, view.len() as u64));
    assert_eq!((spans[1].address, spans[1].length), (1024 + view.len() as u64, 8));
    let mut expected = view.clone();
    expected.extend_from_slice(&last);
    assert_eq!(sandbox.read_reply(buffer, expected.len() as u32).unwrap(), expected);
}

#[test]
fn arguments_beyond_the_capacity_are_not_written() {
    let mut sandbox = start(NORTH, 1_000_000);
    let buffer = SharedBuffer { address: 1024, capacity: 16 };
    let before = sandbox.read_reply(buffer, 16).unwrap();
    let outcome = sandbox.write_arguments(buffer, &vec![vec![7; 10], vec![7; 7]]);
    assert!(matches!(outcome, Err(SandboxError::BufferTooSmall)));
    assert_eq!(sandbox.read_reply(buffer, 16).unwrap(), before);
    // Exactly the capacity still fits.
    assert!(sandbox.write_arguments(buffer, &vec![vec![7; 10], vec![7; 6]]).is_ok());
    assert_eq!(sandbox.read_reply(buffer, 16).unwrap(), vec![7; 16]);
}

#[test]
fn a_view_too_large_for_the_buffer_is_refused() {
    let mut sandbox = start(&module_with_act("(i32.const 0)", 4, 1024), 1_000_000);
    let outcome = wasm_act(&mut sandbox, &small_view(), LastTurnResult::StoodStill);
    assert!(matches!(outcome, Err(SandboxError::BufferTooSmall)));
}

#[test]
fn a_buffer_outside_the_memory_is_refused() {
    let mut sandbox = start(&module_with_act("(i32.const 4)", 1000, 70000), 1_000_000);
    let outcome = wasm_act(&mut sandbox, &small_view(), LastTurnResult::StoodStill);
    assert!(matches!(outcome, Err(SandboxError::OutOfBounds)));
    assert!(matches!(wasm_name(&mut sandbox), Err(SandboxError::OutOfBounds)));
}

#[test]
fn a_reply_longer_than_the_buffer_is_refused() {
    let mut sandbox = start(&module_with_act("(i32.const 5000)", 1000, 1024), 1_000_000);
    assert!(matches!(wasm_name(&mut sandbox), Err(SandboxError::OutOfBounds)));
    let mut negative = start(&module_with_act("(i32.const -1)", 1000, 1024), 1_000_000);
    assert!(matches!(wasm_name(&mut negative), Err(SandboxError::OutOfBounds)));
}

#[test]
fn a_module_that_loops_forever_runs_out_of_fuel() {
    let mut sandbox = start(&module_with_act("(loop $l (br $l)) (i32.const 0)", 1000, 1024), 100_000);
    let outcome = wasm_act(&mut sandbox, &small_view(), LastTurnResult::StoodStill);
    assert!(matches!(outcome, Err(SandboxError::OutOfFuel)));
    assert_eq!(sandbox.fuel_left(), Some(0));
}

#[test]
fn a_module_that_traps_is_told_apart_from_one_out_of_fuel() {
    let mut sandbox = start(&module_with_act("unreachable", 1000, 1024), 100_000);
    let outcome = wasm_act(&mut sandbox, &small_view(), LastTurnResult::StoodStill);
    assert!(matches!(outcome, Err(SandboxError::Trap(_))));
}

#[test]
fn a_reply_that_spells_no_action_is_malformed() {
    let garbage = "(i32.store (i32.const 1024) (i32.const 9)) (i32.const 4)";
    let mut sandbox = start(&module_with_act(garbage, 1000, 1024), 100_000);
    let outcome = wasm_act(&mut sandbox, &small_view(), LastTurnResult::StoodStill);
    assert!(matches!(outcome, Err(SandboxError::MalformedPayload)));
    let mut empty = start(&module_with_act("(i32.const 0)", 1000, 1024), 100_000);
    assert!(matches!(wasm_name(&mut empty), Err(SandboxError::MalformedPayload)));
}

#[test]
fn a_missing_export_is_told() {
    let mut sandbox = start(WITNESS, 100_000);
    assert!(matches!(wasm_name(&mut sandbox), Err(SandboxError::MissingExport)));
    let mut bare = start("(module)", 100_000);
    assert!(matches!(bare.buffer(), Err(SandboxError::MissingExport)));
    assert!(matches!(
        bare.write_arguments(SharedBuffer { address: 0, capacity: 8 }, &vec![]),
        Err(SandboxError::MissingExport)
    ));
}

#[test]
fn an_export_of_another_shape_counts_as_missing() {
    let text = r#"(module
  (memory (export "memory") 1)
  (func (export "__wasm_get_buffer_address") (result i64) (i64.const 1024))
  (func (export "__wasm_get_buffer_size") (param i32) (result i32) (i32.const 1000)))"#;
    let mut sandbox = start(text, 100_000);
    assert!(matches!(sandbox.invoke("__wasm_get_buffer_address", &vec![], 1), Err(SandboxError::MissingExport)));
    assert!(matches!(sandbox.invoke("__wasm_get_buffer_size", &vec![], 1), Err(SandboxError::MissingExport)));
    assert_eq!(sandbox.invoke("__wasm_get_buffer_size", &vec![5], 1).unwrap(), vec![1000]);
}

#[test]
fn a_call_without_arguments_and_reply_leaves_the_buffer_alone() {
    let mut sandbox = start(NORTH, 100_000);
    assert_eq!(sandbox.call("idle", &vec![], false).unwrap(), Vec::<u8>::new());
    // Not even a memory is needed for such a call.
    let mut bare = start(r#"(module (func (export "idle")))"#, 100_000);
    assert_eq!(bare.call("idle", &vec![], false).unwrap(), Vec::<u8>::new());
}

#[test]
fn bytes_that_are_no_module_do_not_compile() {
    let runtime = runtime();
    assert!(matches!(runtime.compile(b"not a module"), Err(SandboxError::Compile(_))));
    assert!(matches!(runtime.compile(b"\0asm\x01\0\0\0garbage"), Err(SandboxError::Compile(_))));
    assert!(runtime.compile(b"\0asm\x01\0\0\0").is_ok());
}

#[test]
fn a_module_that_cannot_start_is_not_instantiated() {
    let runtime = runtime();
    let trapping = runtime.compile(b"(module (func $s unreachable) (start $s))").unwrap();
    assert!(matches!(runtime.instantiate(&trapping, 1000), Err(SandboxError::Instantiate(_))));
    let importing = runtime.compile(br#"(module (import "env" "f" (func)))"#).unwrap();
    assert!(matches!(runtime.instantiate(&importing, 1000), Err(SandboxError::Instantiate(_))));
    let looping =
        runtime.compile(b"(module (func $s (loop $l (br $l))) (start $s))").unwrap();
    assert!(matches!(runtime.instantiate(&looping, 1000), Err(SandboxError::Instantiate(_))));
}

#[test]
fn fuel_only_goes_down_until_it_is_set_again() {
    let mut sandbox = start(NORTH, 1_000_000);
    let mut last = sandbox.fuel_left().unwrap();
    assert_eq!(last, 1_000_000);
    for _ in 0..5 {
        wasm_act(&mut sandbox, &small_view(), LastTurnResult::StoodStill).unwrap();
        let left = sandbox.fuel_left().unwrap();
        assert!(left < last);
        last = left;
    }
    assert!(sandbox.set_fuel(500));
    assert_eq!(sandbox.fuel_left(), Some(500));
}

#[test]
fn the_engine_starts_as_it_defaults() {
    let runtime = Runtime::new().unwrap();
    assert!(runtime.compile(b"(module)").is_ok());
}

fn limits() -> MemoryLimits {
    MemoryLimits { reservation: 1 << 20, reservation_for_growth: 1 << 20, guard_size: 1 << 16 }
}

#[test]
fn a_call_past_its_deadline_is_stopped() {
    let settings = Settings { memory: Some(limits()), deadline: Some(0) };
    let runtime = Runtime::with_settings(settings).unwrap();
    let module = runtime.compile(NORTH.as_bytes()).unwrap();
    let mut sandbox = runtime.instantiate(&module, 1_000_000).unwrap();
    assert!(matches!(wasm_name(&mut sandbox), Err(SandboxError::TimedOut)));
    // Start-up code has a deadline too.
    let looping =
        runtime.compile(b"(module (func $s (loop $l (br $l))) (start $s))").unwrap();
    assert!(matches!(
        runtime.instantiate(&looping, u64::MAX),
        Err(SandboxError::Instantiate(_))
    ));
}

#[test]
fn a_call_within_its_deadline_goes_through() {
    let settings = Settings { memory: Some(limits()), deadline: Some(3) };
    let runtime = Runtime::with_settings(settings).unwrap();
    let clock = runtime.clock().unwrap();
    let module = runtime.compile(NORTH.as_bytes()).unwrap();
    let mut sandbox = runtime.instantiate(&module, 1_000_000).unwrap();
    assert_eq!(wasm_name(&mut sandbox).unwrap(), "Mr North");
    // Every call gets the whole deadline anew.
    for _ in 0..5 {
        clock.tick();
    }
    assert_eq!(wasm_team_name(&mut sandbox).unwrap(), "Northward");
}

#[test]
fn an_engine_without_deadlines_has_no_clock() {
    assert!(runtime().clock().is_none());
    assert!(Runtime::new().unwrap().clock().is_none());
}

#[test]
fn a_module_is_told_all_addresses_and_then_all_lengths() {
    let spans = vec![
        Span { address: 1024, length: 10 },
        Span { address: 1034, length: 0 },
        Span { address: 0xffff_fff0, length: 0x8000_0000 },
    ];
    assert_eq!(
        argument_words(&spans),
        Some(vec![1024, 1034, -16, 10, 0, i32::MIN])
    );
    assert_eq!(argument_words(&vec![]), Some(vec![]));
    assert_eq!(argument_words(&vec![Span { address: 1 << 32, length: 1 }]), None);
    assert_eq!(argument_words(&vec![Span { address: 1, length: 1 << 32 }]), None);
    assert_eq!(
        argument_words(&vec![Span { address: u32::MAX as u64, length: u32::MAX as u64 }]),
        Some(vec![-1, -1])
    );
}

#[test]
fn a_started_module_has_no_more_fuel_than_it_was_given() {
    let sandbox = start(NORTH, 1234);
    assert_eq!(sandbox.fuel_left(), Some(1234));
    let runtime = runtime();
    let busy = runtime
        .compile(b"(module (func $s (drop (i32.add (i32.const 1) (i32.const 2)))) (start $s))")
        .unwrap();
    let started = runtime.instantiate(&busy, 1000).unwrap();
    assert!(started.fuel_left().unwrap() < 1000);
}

#[test]
fn a_module_without_a_memory_cannot_be_asked() {
    let bare = r#"(module
  (func (export "__wasm_get_buffer_address") (result i32) (i32.const 0))
  (func (export "__wasm_get_buffer_size") (result i32) (i32.const 0))
  (func (export "__wasm_shim_name") (result i32) (i32.const 0))
  (func (export "idle")))"#;
    let mut sandbox = start(bare, 1_000_000);
    assert!(matches!(wasm_name(&mut sandbox), Err(SandboxError::MissingExport)));
    assert!(matches!(sandbox.call("__wasm_shim_name", &vec![], true), Err(SandboxError::MissingExport)));
    // The module's buffer holds nothing, which is told first.
    assert!(matches!(sandbox.call("idle", &vec![vec![1]], false), Err(SandboxError::BufferTooSmall)));
    assert!(matches!(sandbox.call("idle", &vec![vec![]], false), Err(SandboxError::MissingExport)));
    assert_eq!(sandbox.call("idle", &vec![], false).unwrap(), Vec::<u8>::new());
}

#[test]
fn the_words_that_name_a_buffer_are_read_unsigned() {
    assert_eq!(buffer_named(1024, 1000), SharedBuffer { address: 1024, capacity: 1000 });
    assert_eq!(buffer_named(-1, i32::MIN), SharedBuffer { address: u32::MAX, capacity: 1 << 31 });
    assert_eq!(buffer_named(0, 0), SharedBuffer { address: 0, capacity: 0 });
}

#[test]
fn the_longest_deadline_leaves_the_clock_room() {
    let settings = Settings { memory: Some(limits()), deadline: Some(u64::MAX) };
    let runtime = Runtime::with_settings(settings).unwrap();
    let clock = runtime.clock().unwrap();
    clock.tick();
    let module = runtime.compile(NORTH.as_bytes()).unwrap();
    let mut sandbox = runtime.instantiate(&module, 1_000_000).unwrap();
    clock.tick();
    assert_eq!(wasm_name(&mut sandbox).unwrap(), "Mr North");
}

#[test]
fn too_little_room_is_told_before_a_missing_memory() {
    let bare = r#"(module (func (export "idle")))"#;
    let mut sandbox = start(bare, 1_000_000);
    let buffer = SharedBuffer { address: 0, capacity: 4 };
    assert!(matches!(
        sandbox.write_arguments(buffer, &vec![vec![1, 2], vec![3, 4, 5]]),
        Err(SandboxError::BufferTooSmall)
    ));
    assert!(matches!(
        sandbox.write_arguments(buffer, &vec![vec![1, 2], vec![3, 4]]),
        Err(SandboxError::MissingExport)
    ));
    assert!(matches!(sandbox.write_arguments(buffer, &vec![]), Err(SandboxError::MissingExport)));
}
