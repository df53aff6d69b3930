//! The sandbox runtime: turning raw module bytes into an invocable unit with
//! its own linear memory and a fuel meter, and calling into it through the
//! shared buffer protocol.

use crate::buffer::{
    layout, layout_of, lemma_spans_ordered, lemma_spans_within, span_at, total_length,
    LayoutError, SharedBuffer, Span,
};
use crate::codec::integers::{i32_from_pattern, i32_pattern};
use vstd::prelude::*;

verus! {

// The types of the engine that pass through this module. Nothing is known
// of what is inside a value of any of them.
#[verifier::external_type_specification]
#[verifier::external_body]
pub struct ExConfig(wasmtime::Config);

#[verifier::external_type_specification]
#[verifier::external_body]
pub struct ExEngine(wasmtime::Engine);

#[verifier::external_type_specification]
#[verifier::external_body]
pub struct ExModule(wasmtime::Module);

#[verifier::external_type_specification]
#[verifier::external_body]
#[verifier::reject_recursive_types(T)]
pub struct ExStore<T: 'static>(wasmtime::Store<T>);

#[verifier::external_type_specification]
#[verifier::external_body]
pub struct ExInstance(wasmtime::Instance);

#[verifier::external_type_specification]
#[verifier::external_body]
pub struct ExMemory(wasmtime::Memory);

#[verifier::external_type_specification]
#[verifier::external_body]
pub struct ExFunc(wasmtime::Func);

#[verifier::external_type_specification]
#[verifier::external_body]
pub struct ExError(wasmtime::Error);

/// The identity of a store. Everything created in a store remembers it, and
/// the engine refuses, by panicking, to use a thing with another store.
pub uninterp spec fn store_identity(store: wasmtime::Store<()>) -> int;

/// The identity of the store that an instance was created in.
pub uninterp spec fn instance_home(instance: wasmtime::Instance) -> int;

/// The identity of the store that holds a memory.
pub uninterp spec fn memory_home(memory: wasmtime::Memory) -> int;

/// The identity of the store that holds a function.
pub uninterp spec fn func_home(func: wasmtime::Func) -> int;

/// The bytes of a linear memory as a store currently holds them.
pub uninterp spec fn memory_bytes(store: wasmtime::Store<()>, memory: wasmtime::Memory) -> Seq<u8>;

/// The fuel that a store currently holds; none where its engine does not
/// meter fuel.
pub uninterp spec fn store_fuel(store: wasmtime::Store<()>) -> Option<u64>;

/// Whether a store that held `before` may hold `after` once code has run in
/// it: running code uses fuel up and never adds any, and whether fuel is
/// metered at all never changes.
pub open spec fn burnt_down(before: Option<u64>, after: Option<u64>) -> bool {
    match before {
        Some(had) => after matches Some(has) && has <= had,
        None => after is None,
    }
}

/// `wasmtime::Config::new`: the default configuration.
#[verifier::external_body]
fn config_new() -> (config: wasmtime::Config) {
    wasmtime::Config::new()
}

/// `wasmtime::Config::consume_fuel`: whether executing code uses up fuel.
#[verifier::external_body]
fn config_consume_fuel(config: &mut wasmtime::Config, enable: bool) {
    config.consume_fuel(enable);
}

/// `wasmtime::Config::memory_reservation`: how much address space is set
/// aside for each linear memory.
#[verifier::external_body]
fn config_memory_reservation(config: &mut wasmtime::Config, bytes: u64) {
    config.memory_reservation(bytes);
}

/// `wasmtime::Config::memory_reservation_for_growth`: how much address space
/// is set aside behind a linear memory that had to be moved.
#[verifier::external_body]
fn config_memory_reservation_for_growth(config: &mut wasmtime::Config, bytes: u64) {
    config.memory_reservation_for_growth(bytes);
}

/// `wasmtime::Config::memory_guard_size`: how large the guard region behind
/// each linear memory is.
#[verifier::external_body]
fn config_memory_guard_size(config: &mut wasmtime::Config, bytes: u64) {
    config.memory_guard_size(bytes);
}

/// `wasmtime::Config::epoch_interruption`: whether executing code looks at
/// the engine's clock and stops when its deadline has passed.
#[verifier::external_body]
fn config_epoch_interruption(config: &mut wasmtime::Config, enable: bool) {
    config.epoch_interruption(enable);
}

/// `wasmtime::Engine::increment_epoch`: lets the engine's clock tick once.
#[verifier::external_body]
fn engine_increment_epoch(engine: &wasmtime::Engine) {
    engine.increment_epoch();
}

/// `Clone::clone` of `wasmtime::Engine`: another handle to the same engine.
#[verifier::external_body]
fn engine_clone(engine: &wasmtime::Engine) -> (handle: wasmtime::Engine) {
    engine.clone()
}

/// `wasmtime::Engine::new`. Nothing is claimed of the result.
#[verifier::external_body]
fn engine_new(config: &wasmtime::Config) -> (engine: Result<wasmtime::Engine, wasmtime::Error>) {
    wasmtime::Engine::new(config)
}

/// `wasmtime::Module::new`: validates and compiles a module given in binary or
/// text form. Nothing is claimed of the result.
#[verifier::external_body]
fn module_new(engine: &wasmtime::Engine, bytes: &[u8]) -> (module: Result<
    wasmtime::Module,
    wasmtime::Error,
>) {
    wasmtime::Module::new(engine, bytes)
}

/// `wasmtime::Store::new` with no host data. Nothing is claimed of the result.
#[verifier::external_body]
fn store_new(engine: &wasmtime::Engine) -> (store: wasmtime::Store<()>) {
    wasmtime::Store::new(engine, ())
}

/// `wasmtime::Store::set_fuel`. The store stays the same store. Where its
/// engine meters fuel the store holds the given fuel afterwards; where it
/// does not, the call fails and changes nothing.
#[verifier::external_body]
fn store_set_fuel(store: &mut wasmtime::Store<()>, fuel: u64) -> (done: Result<
    (),
    wasmtime::Error,
>)
    ensures
        store_identity(*final(store)) == store_identity(*old(store)),
        done is Ok <==> store_fuel(*old(store)) is Some,
        done is Ok ==> store_fuel(*final(store)) == Some(fuel),
        done is Err ==> store_fuel(*final(store)) == store_fuel(*old(store)),
    no_unwind
{
    store.set_fuel(fuel)
}

/// `wasmtime::Store::set_epoch_deadline`: code run in the store from now on
/// is stopped once the engine's clock has ticked so many times. The engine
/// adds the ticks to the count its clock has reached, so only deadlines
/// that leave the clock half of its range are let through. The store stays
/// the same store and keeps its fuel.
#[verifier::external_body]
fn store_set_epoch_deadline(store: &mut wasmtime::Store<()>, ticks: u64)
    requires
        ticks <= MAX_DEADLINE,
    ensures
        store_identity(*final(store)) == store_identity(*old(store)),
        store_fuel(*final(store)) == store_fuel(*old(store)),
    no_unwind
{
    store.set_epoch_deadline(ticks);
}

/// `wasmtime::Store::get_fuel`: the fuel that the store holds, and an error
/// where its engine does not meter fuel.
#[verifier::external_body]
fn store_get_fuel(store: &wasmtime::Store<()>) -> (fuel: Result<u64, wasmtime::Error>)
    ensures
        fuel matches Ok(left) ==> store_fuel(*store) == Some(left),
        fuel is Err ==> store_fuel(*store) is None,
{
    store.get_fuel()
}

/// `wasmtime::Instance::new` without imports. The store stays the same store,
/// and an instance that comes back lives in it. The module's start-up code
/// runs on the store's fuel; without imports nothing can add fuel.
#[verifier::external_body]
fn instance_new(store: &mut wasmtime::Store<()>, module: &wasmtime::Module) -> (instance: Result<
    wasmtime::Instance,
    wasmtime::Error,
>)
    ensures
        store_identity(*final(store)) == store_identity(*old(store)),
        burnt_down(store_fuel(*old(store)), store_fuel(*final(store))),
        instance matches Ok(created) ==> instance_home(created) == store_identity(*old(store)),
    no_unwind
{
    wasmtime::Instance::new(store, module, &[])
}

/// `wasmtime::Instance::get_memory`, which panics when the store does not own
/// the instance. The store stays the same store and keeps its fuel, and a
/// memory that comes back is held by it.
#[verifier::external_body]
fn instance_get_memory(
    instance: &wasmtime::Instance,
    store: &mut wasmtime::Store<()>,
    name: &str,
) -> (memory: Option<wasmtime::Memory>)
    requires
        instance_home(*instance) == store_identity(*old(store)),
    ensures
        store_identity(*final(store)) == store_identity(*old(store)),
        store_fuel(*final(store)) == store_fuel(*old(store)),
        memory matches Some(found) ==> memory_home(found) == store_identity(*old(store)),
    no_unwind
{
    instance.get_memory(store, name)
}

/// `wasmtime::Instance::get_func`, which panics when the store does not own
/// the instance. The store stays the same store and keeps its fuel, and a
/// function that comes back is held by it.
#[verifier::external_body]
fn instance_get_func(
    instance: &wasmtime::Instance,
    store: &mut wasmtime::Store<()>,
    name: &str,
) -> (func: Option<wasmtime::Func>)
    requires
        instance_home(*instance) == store_identity(*old(store)),
    ensures
        store_identity(*final(store)) == store_identity(*old(store)),
        store_fuel(*final(store)) == store_fuel(*old(store)),
        func matches Some(found) ==> func_home(found) == store_identity(*old(store)),
    no_unwind
{
    instance.get_func(store, name)
}

/// `wasmtime::Func::call` with 32-bit integer parameters and room for
/// `results` results, which panics when the store does not own the function.
/// The store stays the same store; where the call returns, there are as many
/// results as asked for, each one a 32-bit integer or `None` for a value of
/// another type. The module's code runs on the store's fuel; a module
/// without imports cannot add any. What the module computes is not claimed.
#[verifier::external_body]
fn func_call(
    func: &wasmtime::Func,
    store: &mut wasmtime::Store<()>,
    params: &Vec<i32>,
    results: usize,
) -> (returned: Result<Vec<Option<i32>>, wasmtime::Error>)
    requires
        func_home(*func) == store_identity(*old(store)),
    ensures
        store_identity(*final(store)) == store_identity(*old(store)),
        burnt_down(store_fuel(*old(store)), store_fuel(*final(store))),
        returned matches Ok(values) ==> values@.len() == results,
    no_unwind
{
    let params: Vec<wasmtime::Val> = params.iter().map(|p| wasmtime::Val::I32(*p)).collect();
    let mut values = vec![wasmtime::Val::I32(0); results];
    func.call(store, &params, &mut values)?;
    Ok(values.iter().map(|value| value.i32()).collect())
}

/// `wasmtime::Memory::data_size`, which panics when the store does not hold
/// the memory: the number of bytes in the memory.
#[verifier::external_body]
fn memory_data_size(memory: &wasmtime::Memory, store: &wasmtime::Store<()>) -> (size: usize)
    requires
        memory_home(*memory) == store_identity(*store),
    ensures
        size == memory_bytes(*store, *memory).len(),
{
    memory.data_size(store)
}

/// `wasmtime::Memory::write`, which panics when the store does not hold the
/// memory. The buffer is written at the offset exactly when it fits the
/// memory there; otherwise nothing is written. The store keeps its fuel.
#[verifier::external_body]
fn memory_write(
    memory: &wasmtime::Memory,
    store: &mut wasmtime::Store<()>,
    offset: usize,
    buffer: &[u8],
) -> (written: bool)
    requires
        memory_home(*memory) == store_identity(*old(store)),
    ensures
        store_identity(*final(store)) == store_identity(*old(store)),
        store_fuel(*final(store)) == store_fuel(*old(store)),
        written <==> offset + buffer@.len() <= memory_bytes(*old(store), *memory).len(),
        written ==> memory_bytes(*final(store), *memory) == overwritten(
            memory_bytes(*old(store), *memory),
            offset as int,
            buffer@,
        ),
        !written ==> memory_bytes(*final(store), *memory) == memory_bytes(*old(store), *memory),
    no_unwind
{
    memory.write(store, offset, buffer).is_ok()
}

/// `wasmtime::Memory::read` into a fresh buffer of the given length, which
/// panics when the store does not hold the memory. The bytes come back
/// exactly when the range lies within the memory.
#[verifier::external_body]
fn memory_read(
    memory: &wasmtime::Memory,
    store: &wasmtime::Store<()>,
    offset: usize,
    length: usize,
) -> (read: Option<Vec<u8>>)
    requires
        memory_home(*memory) == store_identity(*store),
    ensures
        read is Some <==> offset + length <= memory_bytes(*store, *memory).len(),
        read matches Some(bytes) ==> bytes@ == memory_bytes(*store, *memory).subrange(
            offset as int,
            offset + length,
        ),
{
    let mut bytes = vec![0u8; length];
    memory.read(store, offset, &mut bytes).ok().map(|_| bytes)
}

/// What `wasmtime::Error::downcast_ref` finds in an error of the engine: the
/// trap that ends a call when the fuel is used up, the trap that ends it
/// when its deadline has passed, another trap, or no trap at all.
#[verifier::external_body]
fn error_kind(error: &wasmtime::Error) -> (kind: ErrorKind) {
    match error.downcast_ref::<wasmtime::Trap>() {
        Some(wasmtime::Trap::OutOfFuel) => ErrorKind::OutOfFuel,
        Some(wasmtime::Trap::Interrupt) => ErrorKind::Interrupt,
        Some(_) => ErrorKind::Trap,
        None => ErrorKind::Other,
    }
}

/// The text of an error of the engine, with its causes.
#[verifier::external_body]
fn error_text(error: &wasmtime::Error) -> (text: String) {
    format!("{error:#}")
}

/// What kind of error the engine reported.
#[derive(Copy, Clone, Debug, PartialEq, Eq, Structural)]
enum ErrorKind {
    OutOfFuel,
    Interrupt,
    Trap,
    Other,
}

/// A memory with a run of bytes written over it from `offset` on.
pub open spec fn overwritten(memory: Seq<u8>, offset: int, bytes: Seq<u8>) -> Seq<u8> {
    memory.subrange(0, offset) + bytes + memory.subrange(offset + bytes.len(), memory.len() as int)
}

/// The longest deadline that a call can be given, in ticks of the engine's
/// clock: half of what the clock can count.
pub const MAX_DEADLINE: u64 = 0x7fff_ffff_ffff_ffff;

/// The deadline that calls get where a given one is asked for: that one,
/// or the longest there is where it is longer.
pub open spec fn capped_deadline(deadline: Option<u64>) -> Option<u64> {
    match deadline {
        Some(ticks) => Some(if ticks <= MAX_DEADLINE { ticks } else { MAX_DEADLINE }),
        None => None,
    }
}

/// The name under which a module exports its linear memory.
pub const MEMORY_EXPORT: &'static str = "memory";

/// The name of the query that tells where a module's shared buffer starts.
pub const BUFFER_ADDRESS_EXPORT: &'static str = "__wasm_get_buffer_address";

/// The name of the query that tells how large a module's shared buffer is.
pub const BUFFER_SIZE_EXPORT: &'static str = "__wasm_get_buffer_size";

/// Why the sandbox could not do what it was asked to.
#[derive(Debug)]
pub enum SandboxError {
    /// The execution engine itself could not be set up.
    Engine(String),
    /// The module's bytes are not a valid module.
    Compile(String),
    /// The module could not be given a store of its own, or its start-up
    /// code failed.
    Instantiate(String),
    /// The module does not export what the call needs: its memory, or a
    /// function of that name and shape.
    MissingExport,
    /// The arguments need more room than the module's buffer has.
    BufferTooSmall,
    /// The module's buffer, or its reply, does not lie where it says.
    OutOfBounds,
    /// The module used up its fuel before the call returned.
    OutOfFuel,
    /// The call was still running when its deadline passed.
    TimedOut,
    /// The module trapped.
    Trap(String),
    /// The module's reply does not spell a value of the expected type.
    MalformedPayload,
}

/// How much address space the engine sets aside for the linear memory of
/// each module. This tunes speed against address space and changes nothing
/// in what modules compute.
#[derive(Copy, Clone, Debug, PartialEq, Eq, Structural)]
pub struct MemoryLimits {
    /// Bytes of address space set aside for each linear memory.
    pub reservation: u64,
    /// Bytes set aside behind a linear memory that had to be moved to grow.
    pub reservation_for_growth: u64,
    /// Bytes of the guard region behind each linear memory.
    pub guard_size: u64,
}

/// How the engine is set up, beyond metering fuel.
#[derive(Copy, Clone, Debug, PartialEq, Eq, Structural)]
pub struct Settings {
    /// How much address space is set aside for linear memories; the engine's
    /// defaults where nothing is said.
    pub memory: Option<MemoryLimits>,
    /// How many ticks of the engine's clock a call into a module may last;
    /// more than `MAX_DEADLINE` counts as that many. Without a deadline
    /// calls are bounded by fuel alone.
    pub deadline: Option<u64>,
}

/// The execution engine: compiles modules, with fuel metering switched on.
pub struct Runtime {
    engine: wasmtime::Engine,
    deadline: Option<u64>,
}

/// The clock of an engine whose calls have a deadline. Whoever keeps time
/// lets it tick at a steady pace; a call that is still running when its
/// deadline has passed is stopped.
pub struct EpochClock {
    engine: wasmtime::Engine,
}

/// A module that has been validated and compiled, and not yet run.
pub struct CompiledModule {
    module: wasmtime::Module,
}

/// One isolated execution context: a store with its own fuel meter, the
/// instance of one module living in it, and that instance's linear memory.
pub struct Sandbox {
    store: wasmtime::Store<()>,
    instance: wasmtime::Instance,
    memory: Option<wasmtime::Memory>,
    deadline: Option<u64>,
}

/// The lengths of a list of encoded arguments.
pub open spec fn lengths_of(arguments: Seq<Vec<u8>>) -> Seq<usize> {
    Seq::new(arguments.len(), |i: int| arguments[i]@.len() as usize)
}

/// Whether every argument stands in memory where its span says.
pub open spec fn arguments_stand(memory: Seq<u8>, spans: Seq<Span>, arguments: Seq<Vec<u8>>) -> bool {
    &&& spans.len() == arguments.len()
    &&& forall|i: int|
        0 <= i < spans.len() ==> {
            &&& (#[trigger] spans[i]).address + spans[i].length <= memory.len()
            &&& memory.subrange(
                spans[i].address as int,
                spans[i].address + spans[i].length,
            ) == arguments[i]@
        }
}

/// Whether `bytes` are what stands in a memory at the base of a buffer, and
/// no more than the buffer can hold.
pub open spec fn stands_at_base(memory: Seq<u8>, buffer: SharedBuffer, bytes: Seq<u8>) -> bool {
    &&& bytes.len() <= buffer.capacity
    &&& buffer.address + bytes.len() <= memory.len()
    &&& bytes == memory.subrange(buffer.address as int, buffer.address + bytes.len())
}

/// Whether a call that handed back `bytes` may have gone through a buffer:
/// the buffer has room for arguments of the given lengths, and where the
/// call replies, the bytes are what stands at its base in the memory.
pub open spec fn went_through(
    buffer: SharedBuffer,
    lengths: Seq<usize>,
    replies: bool,
    memory: Seq<u8>,
    bytes: Seq<u8>,
) -> bool {
    &&& total_length(lengths) <= buffer.capacity
    &&& replies ==> stands_at_base(memory, buffer, bytes)
}

/// Whether every address and every length of a layout can be told in a
/// 32-bit word.
pub open spec fn fits_words(spans: Seq<Span>) -> bool {
    forall|i: int|
        0 <= i < spans.len() ==> (#[trigger] spans[i]).address <= u32::MAX && spans[i].length
            <= u32::MAX
}

/// The words that tell a module where its arguments stand: all their
/// addresses, then all their lengths.
pub open spec fn words_of(spans: Seq<Span>) -> Seq<i32> {
    Seq::new(
        2 * spans.len(),
        |i: int|
            if i < spans.len() {
                i32_from_pattern(spans[i].address as u32)
            } else {
                i32_from_pattern(spans[i - spans.len()].length as u32)
            },
    )
}

/// The unsigned reading of a 32-bit integer handed over by a module.
fn unsigned(value: i32) -> (pattern: u32)
    ensures
        pattern == i32_pattern(value),
{
    if value < 0 {
        (value as i64 + 0x1_0000_0000) as u32
    } else {
        value as u32
    }
}

/// The 32-bit integer that a module reads as the given unsigned number.
fn signed(pattern: u32) -> (value: i32)
    ensures
        value == i32_from_pattern(pattern),
{
    if pattern >= 0x8000_0000 {
        (pattern as i64 - 0x1_0000_0000) as i32
    } else {
        pattern as i32
    }
}

/// The buffer that a module names by the two words it answers with: where
/// the buffer starts and how much it holds, each read as an unsigned
/// number.
pub fn buffer_named(address: i32, capacity: i32) -> (buffer: SharedBuffer)
    ensures
        buffer.address == i32_pattern(address),
        buffer.capacity == i32_pattern(capacity),
{
    SharedBuffer { address: unsigned(address), capacity: unsigned(capacity) }
}

/// The words handed to a module that is called with arguments laid out as
/// given; none where an address or a length does not fit a word.
pub fn argument_words(spans: &Vec<Span>) -> (words: Option<Vec<i32>>)
    ensures
        match words {
            Some(found) => fits_words(spans@) && found@ == words_of(spans@),
            None => !fits_words(spans@),
        },
{
    let mut words: Vec<i32> = Vec::new();
    let mut i: usize = 0;
    while i < spans.len()
        invariant
            i <= spans@.len(),
            words@.len() == i,
            forall|j: int|
                0 <= j < i ==> (#[trigger] spans@[j]).address <= u32::MAX && words@[j]
                    == i32_from_pattern(spans@[j].address as u32),
        decreases spans@.len() - i,
    {
        if spans[i].address > u32::MAX as u64 {
            return None;
        }
        words.push(signed(spans[i].address as u32));
        i = i + 1;
    }
    let mut k: usize = 0;
    while k < spans.len()
        invariant
            k <= spans@.len(),
            words@.len() == spans@.len() + k,
            forall|j: int|
                0 <= j < spans@.len() ==> (#[trigger] spans@[j]).address <= u32::MAX && words@[j]
                    == i32_from_pattern(spans@[j].address as u32),
            forall|j: int|
                0 <= j < k ==> (#[trigger] spans@[j]).length <= u32::MAX && words@[spans@.len()
                    + j] == i32_from_pattern(spans@[j].length as u32),
        decreases spans@.len() - k,
    {
        if spans[k].length > u32::MAX as u64 {
            return None;
        }
        words.push(signed(spans[k].length as u32));
        k = k + 1;
    }
    assert(words@ =~= words_of(spans@));
    Some(words)
}

impl Runtime {
    /// Sets the engine up, metering fuel and otherwise as the engine
    /// defaults.
    pub fn new() -> (runtime: Result<Runtime, SandboxError>)
        ensures
            runtime matches Ok(found) ==> found.deadline() is None,
            runtime matches Err(error) ==> error is Engine,
    {
        Runtime::with_settings(Settings { memory: None, deadline: None })
    }

    /// Sets the engine up, metering fuel, for a host that is short of
    /// address space.
    pub fn with_memory_limits(limits: MemoryLimits) -> (runtime: Result<Runtime, SandboxError>)
        ensures
            runtime matches Ok(found) ==> found.deadline() is None,
            runtime matches Err(error) ==> error is Engine,
    {
        Runtime::with_settings(Settings { memory: Some(limits), deadline: None })
    }

    /// Sets the engine up, metering fuel, with the settings given.
    pub fn with_settings(settings: Settings) -> (runtime: Result<Runtime, SandboxError>)
        ensures
            runtime matches Ok(found) ==> found.deadline() == capped_deadline(settings.deadline),
            runtime matches Err(error) ==> error is Engine,
    {
        let mut config = config_new();
        config_consume_fuel(&mut config, true);
        match settings.memory {
            Some(limits) => {
                config_memory_reservation(&mut config, limits.reservation);
                config_memory_reservation_for_growth(&mut config, limits.reservation_for_growth);
                config_memory_guard_size(&mut config, limits.guard_size);
            },
            None => {},
        }
        match settings.deadline {
            Some(_) => {
                config_epoch_interruption(&mut config, true);
            },
            None => {},
        }
        let deadline = match settings.deadline {
            Some(ticks) => Some(if ticks <= MAX_DEADLINE { ticks } else { MAX_DEADLINE }),
            None => None,
        };
        match engine_new(&config) {
            Ok(engine) => Ok(Runtime { engine, deadline }),
            Err(error) => Err(SandboxError::Engine(error_text(&error))),
        }
    }

    #[verifier::type_invariant]
    spec fn bounded(&self) -> bool {
        self.deadline matches Some(ticks) ==> ticks <= MAX_DEADLINE
    }

    /// How many ticks of the engine's clock a call into a module may last,
    /// where calls have a deadline.
    pub closed spec fn deadline(&self) -> Option<u64> {
        self.deadline
    }

    /// Whether calls have a deadline.
    pub open spec fn has_clock(&self) -> bool {
        self.deadline() is Some
    }

    /// The clock that the deadlines of calls go by, where they have one.
    pub fn clock(&self) -> (clock: Option<EpochClock>)
        ensures
            clock is Some == self.has_clock(),
    {
        match self.deadline {
            Some(_) => Some(EpochClock { engine: engine_clone(&self.engine) }),
            None => None,
        }
    }

    /// Validates and compiles a module. No code of the module runs.
    pub fn compile(&self, bytes: &[u8]) -> (compiled: Result<CompiledModule, SandboxError>)
        ensures
            compiled matches Err(error) ==> error is Compile,
    {
        match module_new(&self.engine, bytes) {
            Ok(module) => Ok(CompiledModule { module }),
            Err(error) => Err(SandboxError::Compile(error_text(&error))),
        }
    }

    /// Gives a module a store of its own, charged with `fuel`, and runs its
    /// start-up code under that meter.
    pub fn instantiate(&self, module: &CompiledModule, fuel: u64) -> (sandbox: Result<
        Sandbox,
        SandboxError,
    >)
        ensures
            sandbox matches Ok(started) ==> started.fuel() <= fuel && started.deadline()
                == self.deadline(),
            sandbox matches Err(error) ==> error is Instantiate,
    {
        proof {
            use_type_invariant(self);
        }
        let mut store = store_new(&self.engine);
        match store_set_fuel(&mut store, fuel) {
            Ok(()) => {},
            Err(error) => {
                return Err(SandboxError::Instantiate(error_text(&error)));
            },
        }
        match self.deadline {
            Some(ticks) => {
                store_set_epoch_deadline(&mut store, ticks);
            },
            None => {},
        }
        match instance_new(&mut store, &module.module) {
            Ok(instance) => {
                let memory = instance_get_memory(&instance, &mut store, MEMORY_EXPORT);
                Ok(Sandbox { store, instance, memory, deadline: self.deadline })
            },
            Err(error) => Err(SandboxError::Instantiate(error_text(&error))),
        }
    }
}

impl Sandbox {
    #[verifier::type_invariant]
    spec fn coherent(&self) -> bool {
        &&& self.deadline matches Some(ticks) ==> ticks <= MAX_DEADLINE
        &&& store_fuel(self.store) is Some
        &&& instance_home(self.instance) == store_identity(self.store)
        &&& self.memory matches Some(memory) ==> memory_home(memory) == store_identity(self.store)
    }

    /// Whether the module exports a linear memory.
    pub closed spec fn has_memory(&self) -> bool {
        self.memory is Some
    }

    /// The bytes of the module's linear memory; none where it exports no
    /// memory.
    pub closed spec fn memory_contents(&self) -> Seq<u8> {
        match self.memory {
            Some(memory) => memory_bytes(self.store, memory),
            None => Seq::empty(),
        }
    }

    /// The fuel that the module's store holds.
    pub closed spec fn fuel(&self) -> u64 {
        match store_fuel(self.store) {
            Some(fuel) => fuel,
            None => 0,
        }
    }

    /// How many ticks of the engine's clock a call into the module may last,
    /// where calls have a deadline.
    pub closed spec fn deadline(&self) -> Option<u64> {
        self.deadline
    }

    /// The fuel that is left. The engine of a sandbox meters fuel, so there
    /// always is a reading.
    pub fn fuel_left(&self) -> (fuel: Option<u64>)
        ensures
            fuel == Some(self.fuel()),
    {
        proof {
            use_type_invariant(self);
        }
        match store_get_fuel(&self.store) {
            Ok(fuel) => Some(fuel),
            Err(_) => None,
        }
    }

    /// Sets the fuel that the module may use from now on, and says whether
    /// the engine took it. The engine of a sandbox meters fuel, so it always
    /// does. Nothing else changes.
    pub fn set_fuel(&mut self, fuel: u64) -> (done: bool)
        ensures
            done,
            final(self).fuel() == fuel,
            final(self).has_memory() == old(self).has_memory(),
            final(self).deadline() == old(self).deadline(),
    {
        proof {
            use_type_invariant(&*self);
        }
        let done = store_set_fuel(&mut self.store, fuel).is_ok();
        done
    }

    /// Calls an exported function that takes and returns 32-bit integers:
    /// `results` of them are expected back. The call runs until it returns,
    /// traps, has used up the fuel, or is stopped at its deadline.
    pub fn invoke(&mut self, name: &str, params: &Vec<i32>, results: usize) -> (returned: Result<
        Vec<i32>,
        SandboxError,
    >)
        ensures
            final(self).has_memory() == old(self).has_memory(),
            final(self).deadline() == old(self).deadline(),
            final(self).fuel() <= old(self).fuel(),
            returned matches Ok(values) ==> values@.len() == results,
            returned matches Err(error) ==> error is MissingExport || error is OutOfFuel
                || error is TimedOut || error is Trap,
    {
        proof {
            use_type_invariant(&*self);
        }
        let func = match instance_get_func(&self.instance, &mut self.store, name) {
            Some(func) => func,
            None => {
                return Err(SandboxError::MissingExport);
            },
        };
        match self.deadline {
            Some(ticks) => {
                store_set_epoch_deadline(&mut self.store, ticks);
            },
            None => {},
        }
        match func_call(&func, &mut self.store, params, results) {
            Ok(values) => {
                let mut plain: Vec<i32> = Vec::new();
                let mut i: usize = 0;
                while i < values.len()
                    invariant
                        i <= values@.len(),
                        plain@.len() == i,
                        self.has_memory() == old(self).has_memory(),
                        self.deadline() == old(self).deadline(),
                        self.fuel() <= old(self).fuel(),
                    decreases values@.len() - i,
                {
                    match values[i] {
                        Some(value) => {
                            plain.push(value);
                        },
                        None => {
                            return Err(SandboxError::MissingExport);
                        },
                    }
                    i = i + 1;
                }
                Ok(plain)
            },
            Err(error) => match error_kind(&error) {
                ErrorKind::OutOfFuel => Err(SandboxError::OutOfFuel),
                ErrorKind::Interrupt => Err(SandboxError::TimedOut),
                ErrorKind::Trap => Err(SandboxError::Trap(error_text(&error))),
                ErrorKind::Other => Err(SandboxError::MissingExport),
            },
        }
    }

    /// Asks the module where its shared buffer is and how large. The
    /// module answers as it likes, and gains no fuel by it.
    pub fn buffer(&mut self) -> (buffer: Result<SharedBuffer, SandboxError>)
        ensures
            final(self).has_memory() == old(self).has_memory(),
            final(self).deadline() == old(self).deadline(),
            final(self).fuel() <= old(self).fuel(),
            buffer matches Err(error) ==> error is MissingExport || error is OutOfFuel
                || error is TimedOut || error is Trap,
    {
        let nothing: Vec<i32> = Vec::new();
        let address = match self.invoke(BUFFER_ADDRESS_EXPORT, &nothing, 1) {
            Ok(values) => values[0],
            Err(error) => {
                return Err(error);
            },
        };
        let capacity = match self.invoke(BUFFER_SIZE_EXPORT, &nothing, 1) {
            Ok(values) => values[0],
            Err(error) => {
                return Err(error);
            },
        };
        Ok(buffer_named(address, capacity))
    }

    /// Writes encoded arguments into the module's buffer, one behind the
    /// other, and says where each one stands.
    ///
    /// Everything is checked before anything is written: where the arguments
    /// need more room than the buffer has, or the buffer does not lie within
    /// the memory, the memory is left exactly as it was. That the arguments
    /// need more room than the buffer has is told first, whatever else is
    /// amiss.
    pub fn write_arguments(&mut self, buffer: SharedBuffer, arguments: &Vec<Vec<u8>>) -> (written:
        Result<Vec<Span>, SandboxError>)
        ensures
            final(self).has_memory() == old(self).has_memory(),
            final(self).deadline() == old(self).deadline(),
            final(self).fuel() == old(self).fuel(),
            total_length(lengths_of(arguments@)) > buffer.capacity ==> {
                &&& written matches Err(SandboxError::BufferTooSmall)
                &&& final(self).memory_contents() == old(self).memory_contents()
            },
            !old(self).has_memory() && total_length(lengths_of(arguments@)) <= buffer.capacity ==> {
                &&& written matches Err(SandboxError::MissingExport)
                &&& final(self).memory_contents() == old(self).memory_contents()
            },
            old(self).has_memory() ==> match layout_of(
                buffer,
                old(self).memory_contents().len() as usize,
                lengths_of(arguments@),
            ) {
                Err(LayoutError::BufferTooSmall) => {
                    &&& written matches Err(SandboxError::BufferTooSmall)
                    &&& final(self).memory_contents() == old(self).memory_contents()
                },
                Err(LayoutError::OutOfBounds) => {
                    &&& written matches Err(SandboxError::OutOfBounds)
                    &&& final(self).memory_contents() == old(self).memory_contents()
                },
                Ok(spans) => {
                    &&& written matches Ok(found)
                    &&& found@ == spans
                    &&& final(self).memory_contents().len() == old(self).memory_contents().len()
                    &&& arguments_stand(final(self).memory_contents(), spans, arguments@)
                },
            },
    {
        proof {
            use_type_invariant(&*self);
        }
        let mut lengths: Vec<usize> = Vec::new();
        let mut i: usize = 0;
        while i < arguments.len()
            invariant
                i <= arguments@.len(),
                lengths@.len() == i,
                forall|j: int| 0 <= j < i ==> lengths@[j] == arguments@[j]@.len(),
            decreases arguments@.len() - i,
        {
            lengths.push(arguments[i].len());
            i = i + 1;
        }
        assert(lengths@ =~= lengths_of(arguments@));
        let memory = match self.memory {
            Some(memory) => memory,
            None => {
                return match layout(buffer, 0, &lengths) {
                    Err(LayoutError::BufferTooSmall) => Err(SandboxError::BufferTooSmall),
                    _ => Err(SandboxError::MissingExport),
                };
            },
        };
        let size = memory_data_size(&memory, &self.store);
        let spans = match layout(buffer, size, &lengths) {
            Ok(spans) => spans,
            Err(LayoutError::BufferTooSmall) => {
                return Err(SandboxError::BufferTooSmall);
            },
            Err(LayoutError::OutOfBounds) => {
                return Err(SandboxError::OutOfBounds);
            },
        };
        let mut k: usize = 0;
        while k < arguments.len()
            invariant
                k <= arguments@.len(),
                lengths@ == lengths_of(arguments@),
                forall|j: int| 0 <= j < lengths@.len() ==> lengths@[j] == arguments@[j]@.len(),
                layout_of(buffer, size, lengths@) == Ok::<Seq<Span>, LayoutError>(spans@),
                self.memory == Some(memory),
                self.memory == old(self).memory,
                self.deadline == old(self).deadline,
                store_fuel(self.store) == store_fuel(old(self).store),
                memory_bytes(self.store, memory).len() == size,
                forall|j: int|
                    0 <= j < k ==> memory_bytes(self.store, memory).subrange(
                        (#[trigger] spans@[j]).address as int,
                        spans@[j].address + spans@[j].length,
                    ) == arguments@[j]@,
            decreases arguments@.len() - k,
        {
            proof {
                use_type_invariant(&*self);
                lemma_spans_within(buffer, size, lengths@, k as int);
                assert(spans@[k as int] == span_at(buffer, lengths@, k as int));
            }
            let span = spans[k];
            let ghost before = memory_bytes(self.store, memory);
            let fits = memory_write(
                &memory,
                &mut self.store,
                span.address as usize,
                arguments[k].as_slice(),
            );
            if !fits {
                return Err(SandboxError::OutOfBounds);
            }
            proof {
                let after = memory_bytes(self.store, memory);
                assert(after.len() == size);
                assert(after.subrange(span.address as int, span.address + span.length)
                    =~= arguments@[k as int]@);
                assert forall|j: int| 0 <= j < k implies after.subrange(
                    (#[trigger] spans@[j]).address as int,
                    spans@[j].address + spans@[j].length,
                ) == arguments@[j]@ by {
                    lemma_spans_ordered(buffer, size, lengths@, j, k as int);
                    lemma_spans_within(buffer, size, lengths@, j);
                    assert(spans@[j] == span_at(buffer, lengths@, j));
                    assert(after.subrange(spans@[j].address as int, spans@[j].address + spans@[j].length)
                        =~= before.subrange(
                        spans@[j].address as int,
                        spans@[j].address + spans@[j].length,
                    ));
                }
            }
            k = k + 1;
        }
        proof {
            assert forall|j: int| 0 <= j < spans@.len() implies (#[trigger] spans@[j]).address
                + spans@[j].length <= size by {
                lemma_spans_within(buffer, size, lengths@, j);
                assert(spans@[j] == span_at(buffer, lengths@, j));
            }
        }
        Ok(spans)
    }

    /// Reads a reply of the given length from the base of the module's
    /// buffer.
    pub fn read_reply(&self, buffer: SharedBuffer, length: u32) -> (reply: Result<
        Vec<u8>,
        SandboxError,
    >)
        ensures
            !self.has_memory() ==> reply matches Err(SandboxError::MissingExport),
            self.has_memory() ==> if length <= buffer.capacity && buffer.address + length
                <= self.memory_contents().len() {
                reply matches Ok(bytes) && bytes@ == self.memory_contents().subrange(
                    buffer.address as int,
                    buffer.address + length,
                )
            } else {
                reply matches Err(SandboxError::OutOfBounds)
            },
    {
        proof {
            use_type_invariant(self);
        }
        let memory = match self.memory {
            Some(memory) => memory,
            None => {
                return Err(SandboxError::MissingExport);
            },
        };
        let size = memory_data_size(&memory, &self.store);
        if length > buffer.capacity || buffer.address as u64 + length as u64 > size as u64 {
            return Err(SandboxError::OutOfBounds);
        }
        match memory_read(&memory, &self.store, buffer.address as usize, length as usize) {
            Some(bytes) => Ok(bytes),
            None => Err(SandboxError::OutOfBounds),
        }
    }

    /// Calls an exported function through the shared buffer protocol: the
    /// encoded arguments go into the module's buffer, the function gets all
    /// their addresses and then all their lengths, and, where it replies, the
    /// number it returns is the length of the reply waiting at the base of
    /// the buffer.
    ///
    /// A function without arguments and without a reply is called without
    /// touching the buffer.
    ///
    /// What the module answers is up to the module. Whatever it does, it
    /// gains no fuel, a call that needs the buffer fails on a module without
    /// a memory, and a call that succeeds found room for its arguments in
    /// the buffer that the module named and hands back what stands at the
    /// base of that buffer when the module has returned.
    pub fn call(&mut self, name: &str, arguments: &Vec<Vec<u8>>, replies: bool) -> (reply: Result<
        Vec<u8>,
        SandboxError,
    >)
        ensures
            final(self).has_memory() == old(self).has_memory(),
            final(self).deadline() == old(self).deadline(),
            final(self).fuel() <= old(self).fuel(),
            !replies ==> (reply matches Ok(bytes) ==> bytes@.len() == 0),
            (replies || arguments@.len() > 0) && !old(self).has_memory() ==> reply is Err,
            (replies || arguments@.len() > 0) ==> (reply matches Ok(bytes) ==> exists|
                buffer: SharedBuffer,
            |
                went_through(
                    buffer,
                    lengths_of(arguments@),
                    replies,
                    final(self).memory_contents(),
                    bytes@,
                )),
            reply matches Err(error) ==> !(error is Engine || error is Compile
                || error is Instantiate || error is MalformedPayload),
            arguments@.len() == 0 ==> !(reply matches Err(SandboxError::BufferTooSmall)),
    {
        if arguments.len() == 0 && !replies {
            let params: Vec<i32> = Vec::new();
            return match self.invoke(name, &params, 0) {
                Ok(_) => Ok(Vec::new()),
                Err(error) => Err(error),
            };
        }
        let buffer = match self.buffer() {
            Ok(buffer) => buffer,
            Err(error) => {
                return Err(error);
            },
        };
        let spans = match self.write_arguments(buffer, arguments) {
            Ok(spans) => spans,
            Err(error) => {
                proof {
                    if arguments@.len() == 0 {
                        assert(lengths_of(arguments@) =~= Seq::empty());
                    }
                }
                return Err(error);
            },
        };
        let params = match argument_words(&spans) {
            Some(params) => params,
            None => {
                return Err(SandboxError::OutOfBounds);
            },
        };
        let reply = if replies {
            match self.invoke(name, &params, 1) {
                Ok(values) => self.read_reply(buffer, unsigned(values[0])),
                Err(error) => Err(error),
            }
        } else {
            match self.invoke(name, &params, 0) {
                Ok(_) => Ok(Vec::new()),
                Err(error) => Err(error),
            }
        };
        proof {
            if reply is Ok {
                assert(went_through(
                    buffer,
                    lengths_of(arguments@),
                    replies,
                    self.memory_contents(),
                    reply->Ok_0@,
                ));
            }
        }
        reply
    }
}

impl EpochClock {
    /// Lets the clock tick once.
    pub fn tick(&self) {
        engine_increment_epoch(&self.engine);
    }
}

} // verus!
