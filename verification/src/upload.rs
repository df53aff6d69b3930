//! What the upload server decides: which uploads it takes, into which round
//! a module goes, and how many keys are to be made.

use vstd::prelude::*;

verus! {

/// How many rounds the upload server will try at most.
pub const MAX_ROUNDS: usize = 10_000;

/// How many players a round takes before further ones go into the next.
pub const MAX_PLAYERS_PER_ROUND: usize = 8;

/// How many bytes a module may have.
pub const MAX_WASM_SIZE: usize = 10_000_000;

/// Why an upload is not taken.
#[derive(Copy, Clone, Debug, PartialEq, Eq, Structural)]
pub enum UploadRejection {
    /// Only posts are taken.
    MethodNotAllowed,
    /// The request names no key.
    KeyMissing,
    /// The request names a key that is not among the keys given out.
    KeyInvalid,
    /// The request has no body.
    NoBody,
    /// The body is larger than a module may be.
    TooLarge,
    /// The body does not start as a module starts.
    NotWasm,
}

/// Whether a round takes an upload.
#[derive(Copy, Clone, Debug, PartialEq, Eq, Structural)]
pub enum RoundVerdict {
    /// The upload goes into this round.
    Use,
    /// The upload is to try the next round.
    Skip,
}

/// What is to be done about the keys, given how many there are.
#[derive(Copy, Clone, Debug, PartialEq, Eq, Structural)]
pub enum KeyPlan {
    /// There are more keys than wanted: only the first ones are used.
    UseFirst(usize),
    /// There are exactly as many keys as wanted.
    UseAll,
    /// There are fewer keys than wanted: this many more are to be made.
    Generate(usize),
}

impl UploadRejection {
    /// The status that the server answers with.
    pub open spec fn status(self) -> u16 {
        match self {
            UploadRejection::MethodNotAllowed => 405,
            UploadRejection::KeyMissing => 401,
            UploadRejection::KeyInvalid => 401,
            UploadRejection::NoBody => 400,
            UploadRejection::TooLarge => 400,
            UploadRejection::NotWasm => 400,
        }
    }

    /// The status that the server answers with.
    pub fn status_code(&self) -> (code: u16)
        ensures
            code == self.status(),
    {
        match self {
            UploadRejection::MethodNotAllowed => 405,
            UploadRejection::KeyMissing => 401,
            UploadRejection::KeyInvalid => 401,
            UploadRejection::NoBody => 400,
            UploadRejection::TooLarge => 400,
            UploadRejection::NotWasm => 400,
        }
    }
}

/// Whether bytes start with the four bytes that every module starts with.
pub open spec fn starts_as_module(data: Seq<u8>) -> bool {
    data.len() >= 4 && data[0] == 0 && data[1] == 0x61 && data[2] == 0x73 && data[3] == 0x6d
}

/// Whether a key is among the keys given out.
pub open spec fn key_known(api_keys: Seq<String>, key: Seq<char>) -> bool {
    exists|i: int| 0 <= i < api_keys.len() && (#[trigger] api_keys[i])@ == key
}

/// What must be said of a request before its body is looked at.
pub open spec fn request_verdict(
    is_post: bool,
    api_key: Option<Seq<char>>,
    api_keys: Seq<String>,
) -> Result<(), UploadRejection> {
    if !is_post {
        Err(UploadRejection::MethodNotAllowed)
    } else if api_key is None {
        Err(UploadRejection::KeyMissing)
    } else if !key_known(api_keys, api_key->0) {
        Err(UploadRejection::KeyInvalid)
    } else {
        Ok(())
    }
}

/// What must be said of the body of a request.
pub open spec fn body_verdict(body: Option<Seq<u8>>) -> Result<(), UploadRejection> {
    if body is None {
        Err(UploadRejection::NoBody)
    } else if body->0.len() > MAX_WASM_SIZE {
        Err(UploadRejection::TooLarge)
    } else if !starts_as_module(body->0) {
        Err(UploadRejection::NotWasm)
    } else {
        Ok(())
    }
}

/// What must be said of an upload: what is wrong with the request, and
/// with its body where nothing is.
pub open spec fn verdict_of(
    is_post: bool,
    api_key: Option<Seq<char>>,
    api_keys: Seq<String>,
    body: Option<Seq<u8>>,
) -> Result<(), UploadRejection> {
    match request_verdict(is_post, api_key, api_keys) {
        Ok(()) => body_verdict(body),
        Err(rejection) => Err(rejection),
    }
}

/// Whether bytes start as a module starts.
pub fn is_wasm(data: &[u8]) -> (wasm: bool)
    ensures
        wasm == starts_as_module(data@),
{
    data.len() >= 4 && data[0] == 0 && data[1] == 0x61 && data[2] == 0x73 && data[3] == 0x6d
}

/// Whether a key is among the keys given out.
pub fn knows_key(api_keys: &Vec<String>, key: &str) -> (known: bool)
    ensures
        known == key_known(api_keys@, key@),
{
    let wanted = key.to_owned();
    let mut i: usize = 0;
    while i < api_keys.len()
        invariant
            i <= api_keys@.len(),
            wanted@ == key@,
            forall|j: int| 0 <= j < i ==> (#[trigger] api_keys@[j])@ != key@,
        decreases api_keys@.len() - i,
    {
        if api_keys[i] == wanted {
            return true;
        }
        i = i + 1;
    }
    false
}

/// Judges a request before its body is read: it must be a post and name a
/// key that was given out.
pub fn judge_request(is_post: bool, api_key: Option<&str>, api_keys: &Vec<String>) -> (verdict:
    Result<(), UploadRejection>)
    ensures
        verdict == request_verdict(
            is_post,
            match api_key {
                Some(key) => Some(key@),
                None => None,
            },
            api_keys@,
        ),
{
    if !is_post {
        return Err(UploadRejection::MethodNotAllowed);
    }
    match api_key {
        None => Err(UploadRejection::KeyMissing),
        Some(key) => {
            if !knows_key(api_keys, key) {
                Err(UploadRejection::KeyInvalid)
            } else {
                Ok(())
            }
        },
    }
}

/// Judges the body of a request: there must be one, and it must be a module
/// of no more than the size allowed.
pub fn judge_body(body: Option<&[u8]>) -> (verdict: Result<(), UploadRejection>)
    ensures
        verdict == body_verdict(
            match body {
                Some(data) => Some(data@),
                None => None,
            },
        ),
{
    match body {
        None => Err(UploadRejection::NoBody),
        Some(data) => {
            if data.len() > MAX_WASM_SIZE {
                Err(UploadRejection::TooLarge)
            } else if !is_wasm(data) {
                Err(UploadRejection::NotWasm)
            } else {
                Ok(())
            }
        },
    }
}

/// Judges an upload: it must be a post, name a key that was given out, and
/// carry a body that is a module of no more than the size allowed.
pub fn judge_upload(
    is_post: bool,
    api_key: Option<&str>,
    api_keys: &Vec<String>,
    body: Option<&[u8]>,
) -> (verdict: Result<(), UploadRejection>)
    ensures
        verdict == verdict_of(
            is_post,
            match api_key {
                Some(key) => Some(key@),
                None => None,
            },
            api_keys@,
            match body {
                Some(data) => Some(data@),
                None => None,
            },
        ),
{
    match judge_request(is_post, api_key, api_keys) {
        Ok(()) => judge_body(body),
        Err(rejection) => Err(rejection),
    }
}

/// Judges whether a round takes the upload of a player: a finished round
/// does not; a round that holds a module of the player does, and the module
/// is replaced; a full round does not; any other does.
pub fn judge_round(finished: bool, holds_player: bool, players: usize) -> (verdict: RoundVerdict)
    ensures
        verdict == if finished {
            RoundVerdict::Skip
        } else if holds_player {
            RoundVerdict::Use
        } else if players >= MAX_PLAYERS_PER_ROUND {
            RoundVerdict::Skip
        } else {
            RoundVerdict::Use
        },
{
    if finished {
        RoundVerdict::Skip
    } else if holds_player {
        RoundVerdict::Use
    } else if players >= MAX_PLAYERS_PER_ROUND {
        RoundVerdict::Skip
    } else {
        RoundVerdict::Use
    }
}

/// Plans what is to be done about the keys, given how many there are and
/// how many are wanted.
pub fn plan_keys(existing: usize, wanted: usize) -> (plan: KeyPlan)
    ensures
        plan == if existing > wanted {
            KeyPlan::UseFirst(wanted)
        } else if existing == wanted {
            KeyPlan::UseAll
        } else {
            KeyPlan::Generate((wanted - existing) as usize)
        },
{
    if existing > wanted {
        KeyPlan::UseFirst(wanted)
    } else if existing == wanted {
        KeyPlan::UseAll
    } else {
        KeyPlan::Generate(wanted - existing)
    }
}

} // verus!
