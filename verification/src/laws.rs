//! Properties of the contract, proved once over the mathematical state and
//! the query channel's postcondition, for every account and every payload.

use vstd::prelude::*;
use crate::codec::decoded_note;
use crate::secretb64code::{Error, Response, decode_query_post};

verus! {

/// Round trip: storing a payload and then querying as the same origin
/// returns exactly the payload's decoded text; where the payload does not
/// decode, the query reports exactly `DecodeFailed` — it never silently
/// succeeds with other data.
pub proof fn lemma_set_then_query_same_origin(
    codes: Map<Seq<u8>, Seq<char>>,
    acct: Seq<u8>,
    payload: Seq<char>,
    resp: Response,
)
    requires
        decode_query_post(codes.insert(acct, payload), Some(acct), resp),
    ensures
        match decoded_note(payload) {
            Some(txt) => match resp {
                Response::DecodeB64Code { decnote } => decnote@ == txt,
                _ => false,
            },
            None => resp == Response::Error(Error::DecodeFailed),
        },
{
}

/// Determinism: one state and one origin admit only one response, up to the
/// text the response carries; in particular a malformed payload fails the
/// same way on every replica and on every retry.
pub proof fn lemma_query_deterministic(
    codes: Map<Seq<u8>, Seq<char>>,
    origin: Option<Seq<u8>>,
    r1: Response,
    r2: Response,
)
    requires
        decode_query_post(codes, origin, r1),
        decode_query_post(codes, origin, r2),
    ensures
        match (r1, r2) {
            (Response::DecodeB64Code { decnote: d1 }, Response::DecodeB64Code { decnote: d2 }) =>
                d1@ == d2@,
            _ => r1 == r2,
        },
{
}

/// Idempotence: storing the same payload twice as the same origin leaves the
/// same state as storing it once.
pub proof fn lemma_set_code_idempotent(
    codes: Map<Seq<u8>, Seq<char>>,
    acct: Seq<u8>,
    payload: Seq<char>,
)
    ensures
        codes.insert(acct, payload).insert(acct, payload) == codes.insert(acct, payload),
{
    assert(codes.insert(acct, payload).insert(acct, payload) =~= codes.insert(acct, payload));
}

/// Overwrite: a second store from the same origin strictly replaces the
/// first; only the second payload remains retrievable.
pub proof fn lemma_set_code_overwrites(
    codes: Map<Seq<u8>, Seq<char>>,
    acct: Seq<u8>,
    first: Seq<char>,
    second: Seq<char>,
)
    ensures
        codes.insert(acct, first).insert(acct, second) == codes.insert(acct, second),
        codes.insert(acct, first).insert(acct, second)[acct] == second,
{
    assert(codes.insert(acct, first).insert(acct, second) =~= codes.insert(acct, second));
}

/// Isolation: a store by one origin does not make the payload retrievable by
/// another; the other origin still gets exactly `NotAuthorized`.
pub proof fn lemma_set_code_isolated(
    codes: Map<Seq<u8>, Seq<char>>,
    acct: Seq<u8>,
    other: Seq<u8>,
    payload: Seq<char>,
    resp: Response,
)
    requires
        acct != other,
        !codes.dom().contains(other),
        decode_query_post(codes.insert(acct, payload), Some(other), resp),
    ensures
        resp == Response::Error(Error::NotAuthorized),
{
}

/// Isolation, state side: a store touches no other account's entry.
pub proof fn lemma_set_code_preserves_others(
    codes: Map<Seq<u8>, Seq<char>>,
    acct: Seq<u8>,
    other: Seq<u8>,
    payload: Seq<char>,
)
    requires
        acct != other,
    ensures
        codes.insert(acct, payload).dom().contains(other) == codes.dom().contains(other),
        codes.dom().contains(other) ==> codes.insert(acct, payload)[other] == codes[other],
{
}

/// No-origin query: without an authenticated origin the response is exactly
/// `NotAuthorized`, whatever the contract state holds.
pub proof fn lemma_query_without_origin(codes: Map<Seq<u8>, Seq<char>>, resp: Response)
    requires
        decode_query_post(codes, None, resp),
    ensures
        resp == Response::Error(Error::NotAuthorized),
{
}

/// Indistinguishability: querying as an origin with nothing stored and
/// querying with no origin at all produce the very same `NotAuthorized`
/// response, so a caller cannot probe which accounts have stored data.
pub proof fn lemma_unauthorized_indistinguishable(
    codes1: Map<Seq<u8>, Seq<char>>,
    codes2: Map<Seq<u8>, Seq<char>>,
    acct: Seq<u8>,
    r1: Response,
    r2: Response,
)
    requires
        !codes1.dom().contains(acct),
        decode_query_post(codes1, Some(acct), r1),
        decode_query_post(codes2, None, r2),
    ensures
        r1 == r2,
        r1 == Response::Error(Error::NotAuthorized),
{
}

} // verus!
