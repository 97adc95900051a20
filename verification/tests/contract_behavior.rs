use secretb64code::account::AccountIdWrapper;
use secretb64code::host::{Contract, TransactionStatus, TxRef};
use secretb64code::secretb64code::{Command, Error, Request, Response, SecretB64Code, SECRETB64CODE};

fn account(name: &str) -> AccountIdWrapper {
    AccountIdWrapper(name.as_bytes().to_vec())
}

fn txref() -> TxRef {
    TxRef { blocknum: 1, index: 0 }
}

fn set(contract: &mut SecretB64Code, origin: &AccountIdWrapper, payload: &str) -> TransactionStatus {
    contract.handle_command(
        origin,
        &txref(),
        Command::SetB64Code { b64code: payload.to_string() },
    )
}

fn query(contract: &mut SecretB64Code, origin: Option<&AccountIdWrapper>) -> Response {
    contract.handle_query(origin, Request::DecodeB64Code)
}

#[test]
fn contract_id_is_stable() {
    let contract = SecretB64Code::new();
    assert_eq!(contract.id(), SECRETB64CODE);
}

#[test]
fn set_then_query_same_origin_decodes() {
    let mut contract = SecretB64Code::new();
    let alice = account("Alice");
    let status = set(&mut contract, &alice, "aGVsbG8=");
    assert_eq!(status, TransactionStatus::Accepted);
    let resp = query(&mut contract, Some(&alice));
    assert_eq!(resp, Response::DecodeB64Code { decnote: "hello".to_string() });
}

#[test]
fn other_origin_gets_not_authorized() {
    let mut contract = SecretB64Code::new();
    let alice = account("Alice");
    let bob = account("Bob");
    set(&mut contract, &alice, "aGVsbG8=");
    let resp = query(&mut contract, Some(&bob));
    assert_eq!(resp, Response::Error(Error::NotAuthorized));
}

#[test]
fn no_origin_always_not_authorized() {
    let mut contract = SecretB64Code::new();
    assert_eq!(query(&mut contract, None), Response::Error(Error::NotAuthorized));
    let alice = account("Alice");
    set(&mut contract, &alice, "aGVsbG8=");
    assert_eq!(query(&mut contract, None), Response::Error(Error::NotAuthorized));
}

#[test]
fn unauthorized_responses_indistinguishable() {
    let mut contract = SecretB64Code::new();
    let alice = account("Alice");
    let bob = account("Bob");
    set(&mut contract, &alice, "aGVsbG8=");
    let as_unknown_origin = query(&mut contract, Some(&bob));
    let as_no_origin = query(&mut contract, None);
    assert_eq!(as_unknown_origin, as_no_origin);
}

#[test]
fn setting_twice_is_idempotent() {
    let mut once = SecretB64Code::new();
    let mut twice = SecretB64Code::new();
    let alice = account("Alice");
    set(&mut once, &alice, "aGVsbG8=");
    set(&mut twice, &alice, "aGVsbG8=");
    set(&mut twice, &alice, "aGVsbG8=");
    assert_eq!(once.entries(), twice.entries());
    assert_eq!(query(&mut once, Some(&alice)), query(&mut twice, Some(&alice)));
}

#[test]
fn second_set_overwrites_first() {
    let mut contract = SecretB64Code::new();
    let alice = account("Alice");
    set(&mut contract, &alice, "Zmlyc3Q=");
    set(&mut contract, &alice, "c2Vjb25k");
    let resp = query(&mut contract, Some(&alice));
    assert_eq!(resp, Response::DecodeB64Code { decnote: "second".to_string() });
    assert_eq!(contract.entries().len(), 1);
}

#[test]
fn invalid_base64_reports_decode_failed() {
    let mut contract = SecretB64Code::new();
    let alice = account("Alice");
    set(&mut contract, &alice, "not base64!!!");
    let resp = query(&mut contract, Some(&alice));
    assert_eq!(resp, Response::Error(Error::DecodeFailed));
}

#[test]
fn invalid_utf8_reports_decode_failed() {
    let mut contract = SecretB64Code::new();
    let alice = account("Alice");
    // decodes to the single byte 0xFF, which is not valid UTF-8
    set(&mut contract, &alice, "/w==");
    let resp = query(&mut contract, Some(&alice));
    assert_eq!(resp, Response::Error(Error::DecodeFailed));
}

#[test]
fn decode_failure_is_deterministic() {
    let mut contract = SecretB64Code::new();
    let alice = account("Alice");
    set(&mut contract, &alice, "not base64!!!");
    let first = query(&mut contract, Some(&alice));
    let second = query(&mut contract, Some(&alice));
    assert_eq!(first, second);
}

#[test]
fn empty_payload_round_trips() {
    let mut contract = SecretB64Code::new();
    let alice = account("Alice");
    set(&mut contract, &alice, "");
    let resp = query(&mut contract, Some(&alice));
    assert_eq!(resp, Response::DecodeB64Code { decnote: String::new() });
}

#[test]
fn entries_come_out_in_account_order() {
    let mut contract = SecretB64Code::new();
    let bob = account("Bob");
    let alice = account("Alice");
    let carol = account("Carol");
    set(&mut contract, &bob, "Ym9i");
    set(&mut contract, &carol, "Y2Fyb2w=");
    set(&mut contract, &alice, "YWxpY2U=");
    let entries = contract.entries();
    let keys: Vec<Vec<u8>> = entries.iter().map(|(k, _)| k.0.clone()).collect();
    assert_eq!(keys, vec![b"Alice".to_vec(), b"Bob".to_vec(), b"Carol".to_vec()]);
    assert_eq!(entries[0].1, "YWxpY2U=");
}

#[test]
fn stored_payload_stays_encoded_until_queried() {
    let mut contract = SecretB64Code::new();
    let alice = account("Alice");
    set(&mut contract, &alice, "aGVsbG8=");
    // the state holds the base64 text itself; only the query decodes
    assert_eq!(contract.entries()[0].1, "aGVsbG8=");
    assert_eq!(
        query(&mut contract, Some(&alice)),
        Response::DecodeB64Code { decnote: "hello".to_string() }
    );
}

#[test]
fn account_order_is_byte_lexicographic() {
    let short = AccountIdWrapper(vec![1, 2]);
    let longer = AccountIdWrapper(vec![1, 2, 0]);
    let bigger = AccountIdWrapper(vec![2]);
    assert!(short.lt(&longer));
    assert!(!longer.lt(&short));
    assert!(short.lt(&bigger));
    assert!(!short.lt(&short));
    assert!(short.key_eq(&AccountIdWrapper(vec![1, 2])));
    assert!(!short.key_eq(&longer));
}
