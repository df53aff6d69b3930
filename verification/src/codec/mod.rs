//! The binary contract between the arena and its agents.
//!
//! Every value crossing the sandbox boundary is laid out in a fixed,
//! order-preserving way: integers as fixed-width little-endian bytes, enums as
//! a 32-bit variant index followed by the variant's fields, structs and tuples
//! as their fields in order, optional values behind a one-byte presence flag,
//! and strings and lists behind a 64-bit length.
//!
//! The codec knows nothing about shared memory or the sandbox: it turns values
//! into bytes and bytes into values. Decoding reads one value from the start of
//! the bytes and does not mind what follows it.

pub mod integers;
pub mod terms;
pub mod text;
pub mod view;

use crate::codec::integers::holds_at;
use crate::codec::terms::{
    action_bytes, last_turn_bytes, lemma_action_roundtrip, lemma_last_turn_roundtrip,
    parse_action, parse_last_turn, read_action, read_last_turn, write_action, write_last_turn,
};
use crate::codec::text::{
    lemma_string_roundtrip, parse_string, read_string, string_bytes, text_fits, write_string,
};
use crate::codec::view::{
    lemma_sightings_roundtrip, parse_sightings, read_sightings, sightings_bytes, sightings_fit,
    write_sightings,
};
use crate::world::{sightings_view, Action, LastTurnResult, Sighting, SightingView};
use vstd::prelude::*;

verus! {

/// The bytes handed to a decoder do not spell a value of the expected type:
/// they are truncated, name a variant that does not exist, or hold text that
/// is not UTF-8.
#[derive(Copy, Clone, Debug, PartialEq, Eq, Structural)]
pub struct MalformedPayload;

/// The value at the start of the bytes, dropping where it ends.
pub open spec fn leading<T>(parsed: Option<(T, int)>) -> Option<T> {
    match parsed {
        Some((value, _)) => Some(value),
        None => None,
    }
}

/// The action that bytes decode to, if any.
pub open spec fn decoded_action(bytes: Seq<u8>) -> Option<Action> {
    leading(parse_action(bytes, 0))
}

/// The turn outcome that bytes decode to, if any.
pub open spec fn decoded_last_turn(bytes: Seq<u8>) -> Option<LastTurnResult> {
    leading(parse_last_turn(bytes, 0))
}

/// The text that bytes decode to, if any.
pub open spec fn decoded_text(bytes: Seq<u8>) -> Option<Seq<char>> {
    leading(parse_string(bytes, 0))
}

/// The view that bytes decode to, if any.
pub open spec fn decoded_view(bytes: Seq<u8>) -> Option<Seq<SightingView>> {
    leading(parse_sightings(bytes, 0))
}

/// An encoding stands at the start of itself.
proof fn lemma_holds_at_start(encoding: Seq<u8>)
    ensures
        holds_at(encoding, 0, encoding),
{
    assert(encoding.subrange(0, encoding.len() as int) =~= encoding);
}

/// Decoding an encoded action gives the action back.
pub proof fn law_action_roundtrip(action: Action)
    ensures
        decoded_action(action_bytes(action)) == Some(action),
{
    lemma_holds_at_start(action_bytes(action));
    lemma_action_roundtrip(action_bytes(action), 0, action);
}

/// Decoding an encoded turn outcome gives the outcome back.
pub proof fn law_last_turn_roundtrip(outcome: LastTurnResult)
    ensures
        decoded_last_turn(last_turn_bytes(outcome)) == Some(outcome),
{
    lemma_holds_at_start(last_turn_bytes(outcome));
    lemma_last_turn_roundtrip(last_turn_bytes(outcome), 0, outcome);
}

/// Decoding an encoded text gives the text back, for every text whose
/// length can be written down.
pub proof fn law_text_roundtrip(text: Seq<char>)
    requires
        text_fits(text),
    ensures
        decoded_text(string_bytes(text)) == Some(text),
{
    lemma_holds_at_start(string_bytes(text));
    lemma_string_roundtrip(string_bytes(text), 0, text);
}

/// Decoding an encoded view gives the view back, for every view whose
/// lengths can be written down.
pub proof fn law_view_roundtrip(sightings: Seq<SightingView>)
    requires
        sightings.len() <= u64::MAX,
        sightings_fit(sightings),
    ensures
        decoded_view(sightings_bytes(sightings)) == Some(sightings),
{
    lemma_holds_at_start(sightings_bytes(sightings));
    lemma_sightings_roundtrip(sightings_bytes(sightings), 0, sightings);
}

/// The bytes that stand for an action.
pub fn encode_action(action: Action) -> (bytes: Vec<u8>)
    ensures
        bytes@ == action_bytes(action),
        decoded_action(bytes@) == Some(action),
{
    let mut bytes: Vec<u8> = Vec::new();
    write_action(&mut bytes, action);
    proof {
        assert(bytes@ =~= action_bytes(action));
        law_action_roundtrip(action);
    }
    bytes
}

/// The action that bytes stand for.
pub fn decode_action(bytes: &[u8]) -> (decoded: Result<Action, MalformedPayload>)
    ensures
        match decoded_action(bytes@) {
            Some(action) => decoded == Ok::<Action, MalformedPayload>(action),
            None => decoded == Err::<Action, MalformedPayload>(MalformedPayload),
        },
{
    match read_action(bytes, 0) {
        Some((action, _)) => Ok(action),
        None => Err(MalformedPayload),
    }
}

/// The bytes that stand for the outcome of a turn.
pub fn encode_last_turn(outcome: LastTurnResult) -> (bytes: Vec<u8>)
    ensures
        bytes@ == last_turn_bytes(outcome),
        decoded_last_turn(bytes@) == Some(outcome),
{
    let mut bytes: Vec<u8> = Vec::new();
    write_last_turn(&mut bytes, outcome);
    proof {
        assert(bytes@ =~= last_turn_bytes(outcome));
        law_last_turn_roundtrip(outcome);
    }
    bytes
}

/// The turn outcome that bytes stand for.
pub fn decode_last_turn(bytes: &[u8]) -> (decoded: Result<LastTurnResult, MalformedPayload>)
    ensures
        match decoded_last_turn(bytes@) {
            Some(outcome) => decoded == Ok::<LastTurnResult, MalformedPayload>(outcome),
            None => decoded == Err::<LastTurnResult, MalformedPayload>(MalformedPayload),
        },
{
    match read_last_turn(bytes, 0) {
        Some((outcome, _)) => Ok(outcome),
        None => Err(MalformedPayload),
    }
}

/// The bytes that stand for a text.
pub fn encode_text(text: &str) -> (bytes: Vec<u8>)
    ensures
        bytes@ == string_bytes(text@),
        decoded_text(bytes@) == Some(text@),
{
    let mut bytes: Vec<u8> = Vec::new();
    write_string(&mut bytes, text);
    proof {
        assert(bytes@ =~= string_bytes(text@));
        law_text_roundtrip(text@);
    }
    bytes
}

/// The text that bytes stand for.
pub fn decode_text(bytes: &[u8]) -> (decoded: Result<String, MalformedPayload>)
    ensures
        match decoded_text(bytes@) {
            Some(text) => decoded matches Ok(found) && found@ == text,
            None => decoded == Err::<String, MalformedPayload>(MalformedPayload),
        },
{
    match read_string(bytes, 0) {
        Some((text, _)) => Ok(text),
        None => Err(MalformedPayload),
    }
}

/// The bytes that stand for a view.
pub fn encode_view(sightings: &Vec<Sighting>) -> (bytes: Vec<u8>)
    ensures
        bytes@ == sightings_bytes(sightings_view(sightings@)),
        decoded_view(bytes@) == Some(sightings_view(sightings@)),
{
    let mut bytes: Vec<u8> = Vec::new();
    let count = sightings.len();
    write_sightings(&mut bytes, sightings);
    proof {
        assert(sightings_view(sightings@).len() == count);
        assert(bytes@ =~= sightings_bytes(sightings_view(sightings@)));
        law_view_roundtrip(sightings_view(sightings@));
    }
    bytes
}

/// The view that bytes stand for.
pub fn decode_view(bytes: &[u8]) -> (decoded: Result<Vec<Sighting>, MalformedPayload>)
    ensures
        match decoded_view(bytes@) {
            Some(view) => decoded matches Ok(found) && sightings_view(found@) == view,
            None => decoded == Err::<Vec<Sighting>, MalformedPayload>(MalformedPayload),
        },
{
    match read_sightings(bytes, 0) {
        Some((sightings, _)) => Ok(sightings),
        None => Err(MalformedPayload),
    }
}

} // verus!
