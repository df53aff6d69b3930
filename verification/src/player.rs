//! The contract between the arena and one player's module, on both sides of
//! the sandbox boundary.
//!
//! A module implements [`Player`]. The host reaches each of its methods
//! through an exported shim of a fixed name, with the shared buffer protocol
//! carrying the arguments in and the reply out.

use crate::buffer::SharedBuffer;
use crate::codec::terms::{action_bytes, last_turn_bytes};
use crate::codec::view::sightings_bytes;
use crate::codec::{
    decode_action, decode_last_turn, decode_text, decode_view, decoded_action, decoded_last_turn,
    decoded_text, decoded_view, encode_action, encode_last_turn, encode_text, encode_view,
};
use crate::sandbox::{lengths_of, went_through, Sandbox, SandboxError};
use crate::codec::text::string_bytes;
use crate::world::{sightings_view, Action, LastTurnResult, Sighting, SightingView};
use vstd::prelude::*;

verus! {

/// How many bytes the buffer of a module holds.
pub const BUFFER_SIZE_BYTES: usize = 10_000;

/// The export through which the host asks for a decision.
pub const ACT_EXPORT: &'static str = "__wasm_shim_act";

/// The export through which the host asks for the character's name.
pub const NAME_EXPORT: &'static str = "__wasm_shim_name";

/// The export through which the host asks for the team's name.
pub const TEAM_NAME_EXPORT: &'static str = "__wasm_shim_team_name";

/// What a player's module has to provide.
pub trait Player: Default {
    /// What the player, as it is, does when it sees the given view and is
    /// told the given outcome of its last action. A player says here what
    /// `act` decides.
    open spec fn choice(&self, surroundings: Seq<SightingView>, last_result: LastTurnResult) -> Action {
        arbitrary()
    }

    /// The name that the player gives its character. A player says here
    /// what `name` answers.
    open spec fn told_name(&self) -> Seq<char> {
        arbitrary()
    }

    /// The name that players of this kind give their team. A player says
    /// here what `team_name` answers.
    open spec fn told_team() -> Seq<char> {
        arbitrary()
    }

    /// Defines the character. Every turn, it receives a view of its
    /// surroundings and what became of its last action, and must come up with
    /// an action to perform.
    fn act(&mut self, surroundings: Vec<Sighting>, last_result: LastTurnResult) -> (action: Action)
        ensures
            action == old(self).choice(sightings_view(surroundings@), last_result),
    ;

    /// The name shown above the character.
    fn name(&self) -> (name: String)
        ensures
            name@ == self.told_name(),
    ;

    /// The name of the team the character plays for.
    fn team_name() -> (name: String)
        ensures
            name@ == Self::told_team(),
    ;
}

/// What the host makes of a reply that should hold an action: the action
/// where the call went through and the reply spells one, the call's own
/// error where it failed, and a malformed payload otherwise.
pub fn action_reply(reply: Result<Vec<u8>, SandboxError>) -> (action: Result<Action, SandboxError>)
    ensures
        match reply {
            Ok(bytes) => match decoded_action(bytes@) {
                Some(decoded) => action matches Ok(found) && found == decoded,
                None => action matches Err(SandboxError::MalformedPayload),
            },
            Err(error) => action == Err::<Action, SandboxError>(error),
        },
{
    match reply {
        Ok(bytes) => match decode_action(bytes.as_slice()) {
            Ok(action) => Ok(action),
            Err(_) => Err(SandboxError::MalformedPayload),
        },
        Err(error) => Err(error),
    }
}

/// What the host makes of a reply that should hold a text.
pub fn text_reply(reply: Result<Vec<u8>, SandboxError>) -> (text: Result<String, SandboxError>)
    ensures
        match reply {
            Ok(bytes) => match decoded_text(bytes@) {
                Some(decoded) => text matches Ok(found) && found@ == decoded,
                None => text matches Err(SandboxError::MalformedPayload),
            },
            Err(error) => text == Err::<String, SandboxError>(error),
        },
{
    match reply {
        Ok(bytes) => match decode_text(bytes.as_slice()) {
            Ok(text) => Ok(text),
            Err(_) => Err(SandboxError::MalformedPayload),
        },
        Err(error) => Err(error),
    }
}

/// Whether a module that was handed arguments of the given lengths may
/// have answered with `bytes`: it named a buffer with room for the
/// arguments, and the bytes stand at the base of that buffer in its memory.
pub open spec fn answered_with(lengths: Seq<usize>, memory: Seq<u8>, bytes: Seq<u8>) -> bool {
    exists|buffer: SharedBuffer| went_through(buffer, lengths, true, memory, bytes)
}

/// The lengths of the two arguments of a request for a decision: the
/// encoded view, and the encoded outcome of the last turn.
pub open spec fn act_lengths(surroundings: Seq<Sighting>, last_result: LastTurnResult) -> Seq<
    usize,
> {
    seq![
        sightings_bytes(sightings_view(surroundings)).len() as usize,
        last_turn_bytes(last_result).len() as usize,
    ]
}

/// Asks a module for its decision, given what its character sees and what
/// became of its last action.
///
/// The module decides. Whatever it does, it gains no fuel; a module without
/// a memory cannot be asked; an error of the call never passes for an
/// engine, compile or start-up error; and a decision that comes back is
/// spelt by what the module left at the base of its buffer.
pub fn wasm_act(
    sandbox: &mut Sandbox,
    surroundings: &Vec<Sighting>,
    last_result: LastTurnResult,
) -> (action: Result<Action, SandboxError>)
    ensures
        final(sandbox).has_memory() == old(sandbox).has_memory(),
        final(sandbox).deadline() == old(sandbox).deadline(),
        final(sandbox).fuel() <= old(sandbox).fuel(),
        !old(sandbox).has_memory() ==> action is Err,
        action matches Ok(found) ==> exists|bytes: Seq<u8>|
            #[trigger] answered_with(
                act_lengths(surroundings@, last_result),
                final(sandbox).memory_contents(),
                bytes,
            ) && decoded_action(bytes) == Some(found),
        action matches Err(error) ==> !(error is Engine || error is Compile
            || error is Instantiate),
{
    let mut arguments: Vec<Vec<u8>> = Vec::new();
    arguments.push(encode_view(surroundings));
    arguments.push(encode_last_turn(last_result));
    assert(lengths_of(arguments@) =~= act_lengths(surroundings@, last_result));
    let reply = sandbox.call(ACT_EXPORT, &arguments, true);
    proof {
        if reply is Ok {
            assert(answered_with(
                act_lengths(surroundings@, last_result),
                sandbox.memory_contents(),
                reply->Ok_0@,
            ));
        }
    }
    action_reply(reply)
}

/// Asks a module for the name of its character. The module answers as it
/// likes; a name that comes back is spelt by what the module left at the
/// base of its buffer.
pub fn wasm_name(sandbox: &mut Sandbox) -> (name: Result<String, SandboxError>)
    ensures
        final(sandbox).has_memory() == old(sandbox).has_memory(),
        final(sandbox).deadline() == old(sandbox).deadline(),
        final(sandbox).fuel() <= old(sandbox).fuel(),
        !old(sandbox).has_memory() ==> name is Err,
        name matches Ok(found) ==> exists|bytes: Seq<u8>|
            #[trigger] answered_with(Seq::empty(), final(sandbox).memory_contents(), bytes)
                && decoded_text(bytes) == Some(found@),
        name matches Err(error) ==> !(error is Engine || error is Compile || error is Instantiate
            || error is BufferTooSmall),
{
    let arguments: Vec<Vec<u8>> = Vec::new();
    assert(lengths_of(arguments@) =~= Seq::empty());
    let reply = sandbox.call(NAME_EXPORT, &arguments, true);
    proof {
        if reply is Ok {
            assert(answered_with(Seq::empty(), sandbox.memory_contents(), reply->Ok_0@));
        }
    }
    text_reply(reply)
}

/// Asks a module for the name of its team. The module answers as it likes;
/// a name that comes back is spelt by what the module left at the base of
/// its buffer.
pub fn wasm_team_name(sandbox: &mut Sandbox) -> (name: Result<String, SandboxError>)
    ensures
        final(sandbox).has_memory() == old(sandbox).has_memory(),
        final(sandbox).deadline() == old(sandbox).deadline(),
        final(sandbox).fuel() <= old(sandbox).fuel(),
        !old(sandbox).has_memory() ==> name is Err,
        name matches Ok(found) ==> exists|bytes: Seq<u8>|
            #[trigger] answered_with(Seq::empty(), final(sandbox).memory_contents(), bytes)
                && decoded_text(bytes) == Some(found@),
        name matches Err(error) ==> !(error is Engine || error is Compile || error is Instantiate
            || error is BufferTooSmall),
{
    let arguments: Vec<Vec<u8>> = Vec::new();
    assert(lengths_of(arguments@) =~= Seq::empty());
    let reply = sandbox.call(TEAM_NAME_EXPORT, &arguments, true);
    proof {
        if reply is Ok {
            assert(answered_with(Seq::empty(), sandbox.memory_contents(), reply->Ok_0@));
        }
    }
    text_reply(reply)
}

/// Why a shim could not serve a call.
#[derive(Copy, Clone, Debug, PartialEq, Eq, Structural)]
pub enum ShimError {
    /// An argument does not spell a value of the expected type.
    MalformedArgument,
    /// The reply is longer than the buffer.
    ReplyTooLong,
}

/// Puts a reply at the base of a module's buffer and says how long it is;
/// a reply longer than the buffer is not written at all.
pub fn reply_into(buffer: &mut Vec<u8>, reply: &Vec<u8>) -> (length: Result<u32, ShimError>)
    ensures
        final(buffer)@.len() == old(buffer)@.len(),
        reply_fits(old(buffer)@, reply@) ==> {
            &&& length == Ok::<u32, ShimError>(reply@.len() as u32)
            &&& final(buffer)@ == with_reply(old(buffer)@, reply@)
        },
        !reply_fits(old(buffer)@, reply@) ==> {
            &&& length == Err::<u32, ShimError>(ShimError::ReplyTooLong)
            &&& final(buffer)@ == old(buffer)@
        },
{
    if reply.len() > buffer.len() || reply.len() > u32::MAX as usize {
        return Err(ShimError::ReplyTooLong);
    }
    let mut i: usize = 0;
    while i < reply.len()
        invariant
            i <= reply@.len() <= buffer@.len(),
            buffer@.len() == old(buffer)@.len(),
            buffer@ == reply@.subrange(0, i as int) + old(buffer)@.subrange(
                i as int,
                old(buffer)@.len() as int,
            ),
        decreases reply@.len() - i,
    {
        buffer.set(i, reply[i]);
        i = i + 1;
        assert(buffer@ =~= reply@.subrange(0, i as int) + old(buffer)@.subrange(
            i as int,
            old(buffer)@.len() as int,
        ));
    }
    assert(reply@.subrange(0, i as int) =~= reply@);
    Ok(reply.len() as u32)
}

/// What a reply makes of a buffer: it stands at the base of the buffer,
/// and what lies behind it is as it was.
pub open spec fn with_reply(buffer: Seq<u8>, reply: Seq<u8>) -> Seq<u8> {
    reply + buffer.subrange(reply.len() as int, buffer.len() as int)
}

/// Whether a reply can be handed over in a buffer.
pub open spec fn reply_fits(buffer: Seq<u8>, reply: Seq<u8>) -> bool {
    reply.len() <= buffer.len() && reply.len() <= u32::MAX
}

/// The module's side of a decision: reads the view and the last outcome from
/// the bytes the host wrote, lets the player decide, and leaves the encoded
/// action at the base of the buffer.
///
/// Arguments that spell no view or no outcome are refused before the player
/// is asked. An action always fits a buffer of eight bytes or more.
pub fn shim_act<P: Player>(
    player: &mut P,
    surroundings: &[u8],
    last_result: &[u8],
    buffer: &mut Vec<u8>,
) -> (length: Result<u32, ShimError>)
    ensures
        final(buffer)@.len() == old(buffer)@.len(),
        match (decoded_view(surroundings@), decoded_last_turn(last_result@)) {
            (Some(view), Some(outcome)) => {
                let reply = action_bytes(old(player).choice(view, outcome));
                if reply_fits(old(buffer)@, reply) {
                    &&& length == Ok::<u32, ShimError>(reply.len() as u32)
                    &&& final(buffer)@ == with_reply(old(buffer)@, reply)
                    &&& final(buffer)@.subrange(0, reply.len() as int) == reply
                } else {
                    &&& length == Err::<u32, ShimError>(ShimError::ReplyTooLong)
                    &&& final(buffer)@ == old(buffer)@
                }
            },
            _ => {
                &&& length == Err::<u32, ShimError>(ShimError::MalformedArgument)
                &&& final(buffer)@ == old(buffer)@
                &&& *final(player) == *old(player)
            },
        },
        decoded_view(surroundings@) is Some && decoded_last_turn(last_result@) is Some && old(
            buffer,
        )@.len() >= 8 ==> length is Ok,
{
    let view = match decode_view(surroundings) {
        Ok(view) => view,
        Err(_) => {
            return Err(ShimError::MalformedArgument);
        },
    };
    let outcome = match decode_last_turn(last_result) {
        Ok(outcome) => outcome,
        Err(_) => {
            return Err(ShimError::MalformedArgument);
        },
    };
    let action = player.act(view, outcome);
    let reply = encode_action(action);
    assert(action_bytes(action).len() <= 8);
    let length = reply_into(buffer, &reply);
    proof {
        if length is Ok {
            assert(buffer@.subrange(0, reply@.len() as int) =~= reply@);
        }
    }
    length
}

/// The module's side of the name query: leaves the encoded name at the base
/// of the buffer, or nothing where the buffer is too small for it.
pub fn shim_name<P: Player>(player: &P, buffer: &mut Vec<u8>) -> (length: Result<u32, ShimError>)
    ensures
        final(buffer)@.len() == old(buffer)@.len(),
        ({
            let reply = string_bytes(player.told_name());
            if reply_fits(old(buffer)@, reply) {
                &&& length == Ok::<u32, ShimError>(reply.len() as u32)
                &&& final(buffer)@ == with_reply(old(buffer)@, reply)
                &&& final(buffer)@.subrange(0, reply.len() as int) == reply
            } else {
                &&& length == Err::<u32, ShimError>(ShimError::ReplyTooLong)
                &&& final(buffer)@ == old(buffer)@
            }
        }),
{
    let name = player.name();
    let reply = encode_text(name.as_str());
    let length = reply_into(buffer, &reply);
    proof {
        if length is Ok {
            assert(buffer@.subrange(0, reply@.len() as int) =~= reply@);
        }
    }
    length
}

/// The module's side of the team query: leaves the encoded team name at the
/// base of the buffer, or nothing where the buffer is too small for it.
pub fn shim_team_name<P: Player>(buffer: &mut Vec<u8>) -> (length: Result<u32, ShimError>)
    ensures
        final(buffer)@.len() == old(buffer)@.len(),
        ({
            let reply = string_bytes(P::told_team());
            if reply_fits(old(buffer)@, reply) {
                &&& length == Ok::<u32, ShimError>(reply.len() as u32)
                &&& final(buffer)@ == with_reply(old(buffer)@, reply)
                &&& final(buffer)@.subrange(0, reply.len() as int) == reply
            } else {
                &&& length == Err::<u32, ShimError>(ShimError::ReplyTooLong)
                &&& final(buffer)@ == old(buffer)@
            }
        }),
{
    let name = P::team_name();
    let reply = encode_text(name.as_str());
    let length = reply_into(buffer, &reply);
    proof {
        if length is Ok {
            assert(buffer@.subrange(0, reply@.len() as int) =~= reply@);
        }
    }
    length
}

/// The state of one module: its player, made once and kept for the life of
/// the module, and the buffer it shares with the host.
pub struct GuestModule<P: Player> {
    player: P,
    buffer: Vec<u8>,
}

impl<P: Player> GuestModule<P> {
    /// The player, as it is between two calls.
    pub closed spec fn player(&self) -> P {
        self.player
    }

    /// The bytes of the shared buffer.
    pub closed spec fn buffer_bytes(&self) -> Seq<u8> {
        self.buffer@
    }

    /// The buffer is as large as every module's buffer is.
    pub closed spec fn wf(&self) -> bool {
        self.buffer@.len() == BUFFER_SIZE_BYTES
    }

    /// The state of a module that has just been started: the player as it
    /// is by default, and a buffer of zeroes.
    pub fn new() -> (module: GuestModule<P>)
        ensures
            module.wf(),
            forall|i: int| 0 <= i < BUFFER_SIZE_BYTES ==> module.buffer_bytes()[i] == 0,
    {
        GuestModule { player: P::default(), buffer: vec![0u8; BUFFER_SIZE_BYTES] }
    }

    /// How large the shared buffer is, for the host to ask.
    pub fn buffer_size(&self) -> (size: u32)
        requires
            self.wf(),
        ensures
            size == BUFFER_SIZE_BYTES,
            size == self.buffer_bytes().len(),
    {
        self.buffer.len() as u32
    }

    /// The shared buffer, for the host to read a reply from.
    pub fn buffer(&self) -> (buffer: &Vec<u8>)
        ensures
            buffer@ == self.buffer_bytes(),
    {
        &self.buffer
    }

    /// Serves the host's request for a decision: the player decides, and its
    /// encoded action stands at the base of the buffer. Arguments that
    /// spell no view or no outcome leave the player and the buffer as they
    /// were.
    pub fn act(&mut self, surroundings: &[u8], last_result: &[u8]) -> (length: Result<
        u32,
        ShimError,
    >)
        requires
            old(self).wf(),
        ensures
            final(self).wf(),
            match (decoded_view(surroundings@), decoded_last_turn(last_result@)) {
                (Some(view), Some(outcome)) => {
                    let reply = action_bytes(old(self).player().choice(view, outcome));
                    &&& length == Ok::<u32, ShimError>(reply.len() as u32)
                    &&& final(self).buffer_bytes() == with_reply(old(self).buffer_bytes(), reply)
                    &&& final(self).buffer_bytes().subrange(0, reply.len() as int) == reply
                },
                _ => {
                    &&& length == Err::<u32, ShimError>(ShimError::MalformedArgument)
                    &&& final(self).buffer_bytes() == old(self).buffer_bytes()
                    &&& final(self).player() == old(self).player()
                },
            },
    {
        shim_act(&mut self.player, surroundings, last_result, &mut self.buffer)
    }

    /// Serves the host's request for the character's name: the encoded name
    /// stands at the base of the buffer, or nothing is written where the
    /// name is too long for it. The player stays as it is.
    pub fn name(&mut self) -> (length: Result<u32, ShimError>)
        requires
            old(self).wf(),
        ensures
            final(self).wf(),
            final(self).player() == old(self).player(),
            ({
                let reply = string_bytes(old(self).player().told_name());
                if reply_fits(old(self).buffer_bytes(), reply) {
                    &&& length == Ok::<u32, ShimError>(reply.len() as u32)
                    &&& final(self).buffer_bytes() == with_reply(old(self).buffer_bytes(), reply)
                    &&& final(self).buffer_bytes().subrange(0, reply.len() as int) == reply
                } else {
                    &&& length == Err::<u32, ShimError>(ShimError::ReplyTooLong)
                    &&& final(self).buffer_bytes() == old(self).buffer_bytes()
                }
            }),
    {
        shim_name(&self.player, &mut self.buffer)
    }

    /// Serves the host's request for the team's name: the encoded name
    /// stands at the base of the buffer, or nothing is written where the
    /// name is too long for it. The player stays as it is.
    pub fn team_name(&mut self) -> (length: Result<u32, ShimError>)
        requires
            old(self).wf(),
        ensures
            final(self).wf(),
            final(self).player() == old(self).player(),
            ({
                let reply = string_bytes(P::told_team());
                if reply_fits(old(self).buffer_bytes(), reply) {
                    &&& length == Ok::<u32, ShimError>(reply.len() as u32)
                    &&& final(self).buffer_bytes() == with_reply(old(self).buffer_bytes(), reply)
                    &&& final(self).buffer_bytes().subrange(0, reply.len() as int) == reply
                } else {
                    &&& length == Err::<u32, ShimError>(ShimError::ReplyTooLong)
                    &&& final(self).buffer_bytes() == old(self).buffer_bytes()
                }
            }),
    {
        shim_team_name::<P>(&mut self.buffer)
    }
}

} // verus!
