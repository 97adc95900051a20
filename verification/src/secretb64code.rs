//! The contract itself: per-account storage of one base64 payload, written
//! through the command channel and read back, decoded, through the query
//! channel.

use vstd::prelude::*;
use crate::account::{
    AccountIdWrapper, lex_lt, lemma_lex_lt_asymmetric, lemma_lex_lt_irreflexive,
    lemma_lex_lt_transitive, lemma_lex_lt_trichotomy,
};
use crate::codec::{base64_decode, decoded_note, utf8_decode};
use crate::host::{Contract, ContractId, TransactionStatus, TxRef};

verus! {

/// The identifier under which the host runtime registers this contract.
pub const SECRETB64CODE: ContractId = 6;

/// One stored entry: an account and the payload it last submitted.
#[derive(Debug)]
struct CodeEntry {
    key: AccountIdWrapper,
    value: String,
}

/// Contract state: at most one stored string per account, held in strictly
/// increasing key order so that the account-to-payload relation iterates
/// deterministically on every replica.
#[derive(Debug)]
pub struct SecretB64Code {
    b64code: Vec<CodeEntry>,
}

/// The commands the contract accepts from the blockchain, also called
/// transactions: a closed set of mutating operations, applied one at a time
/// in finalized order. New variants append; existing ones never change shape.
#[derive(Debug)]
pub enum Command {
    /// Store the payload as the calling account's code, replacing any prior
    /// one.
    SetB64Code { b64code: String },
}

/// The errors the query channel can report, as structured data.
#[derive(Clone, Copy, Debug, PartialEq, Eq, Structural)]
pub enum Error {
    /// No authenticated origin was supplied, or the origin has nothing
    /// stored; the two are deliberately indistinguishable.
    NotAuthorized,
    /// The stored payload is not well-formed base64 text; the defect is
    /// confined to the one request that hit it.
    DecodeFailed,
}

/// Query requests: the closed set of read-only operations end users may
/// submit against the contract state.
#[derive(Clone, Debug, PartialEq, Eq, Structural)]
pub enum Request {
    /// Read the calling account's stored payload, decoded.
    DecodeB64Code,
}

/// Query responses: a typed answer or a typed error, never a mutation.
#[derive(Debug, PartialEq)]
pub enum Response {
    /// The decoded payload of the querying account.
    DecodeB64Code { decnote: String },
    /// Something went wrong.
    Error(Error),
}

/// Everything the query channel promises of a response to `DecodeB64Code`:
/// without an authenticated origin, or for an origin with nothing stored,
/// exactly `NotAuthorized`; for an origin with a stored payload, its decoded
/// text, or exactly `DecodeFailed` where the payload does not decode.
pub open spec fn decode_query_post(
    codes: Map<Seq<u8>, Seq<char>>,
    origin: Option<Seq<u8>>,
    resp: Response,
) -> bool {
    match origin {
        None => resp == Response::Error(Error::NotAuthorized),
        Some(acct) => if !codes.dom().contains(acct) {
            resp == Response::Error(Error::NotAuthorized)
        } else {
            match decoded_note(codes[acct]) {
                Some(txt) => match resp {
                    Response::DecodeB64Code { decnote } => decnote@ == txt,
                    _ => false,
                },
                None => resp == Response::Error(Error::DecodeFailed),
            }
        },
    }
}

/// Entries strictly sorted by account identity under the lexicographic
/// order; strictness makes every account appear at most once.
spec fn entries_sorted(s: Seq<CodeEntry>) -> bool {
    forall|i: int, j: int|
        0 <= i < j < s.len() ==> lex_lt(s[i].key@, s[j].key@)
}

spec fn entries_have_key(s: Seq<CodeEntry>, k: Seq<u8>) -> bool {
    exists|i: int| 0 <= i < s.len() && s[i].key@ == k
}

spec fn entry_index_of(s: Seq<CodeEntry>, k: Seq<u8>) -> int {
    choose|i: int| 0 <= i < s.len() && s[i].key@ == k
}

/// The mathematical content of a sequence of entries: the finite map from
/// account identity to stored payload.
spec fn entries_as_map(s: Seq<CodeEntry>) -> Map<Seq<u8>, Seq<char>> {
    Map::new(
        |k: Seq<u8>| entries_have_key(s, k),
        |k: Seq<u8>| s[entry_index_of(s, k)].value@,
    )
}

/// In a sorted entry sequence each account appears at exactly one index.
proof fn lemma_entry_key_unique(s: Seq<CodeEntry>, i: int, j: int)
    requires
        entries_sorted(s),
        0 <= i < s.len(),
        0 <= j < s.len(),
        s[i].key@ == s[j].key@,
    ensures
        i == j,
{
    if i != j {
        lemma_lex_lt_irreflexive(s[i].key@);
    }
}

/// The entry at any index of a sorted sequence is what the map holds for its
/// account.
proof fn lemma_entries_as_map_at(s: Seq<CodeEntry>, i: int)
    requires
        entries_sorted(s),
        0 <= i < s.len(),
    ensures
        entries_as_map(s).dom().contains(s[i].key@),
        entries_as_map(s)[s[i].key@] == s[i].value@,
{
    let k = s[i].key@;
    assert(entries_have_key(s, k));
    let j = entry_index_of(s, k);
    assert(0 <= j < s.len() && s[j].key@ == k);
    lemma_entry_key_unique(s, i, j);
}

/// Replacing the entry at an account's index updates the map at that account
/// alone.
proof fn lemma_replace_entry(s0: Seq<CodeEntry>, i: int, e: CodeEntry)
    requires
        entries_sorted(s0),
        0 <= i < s0.len(),
        s0[i].key@ == e.key@,
    ensures
        entries_sorted(s0.update(i, e)),
        entries_as_map(s0.update(i, e)) == entries_as_map(s0).insert(e.key@, e.value@),
{
    let s1 = s0.update(i, e);
    let k = e.key@;
    assert(forall|m: int| 0 <= m < s1.len() ==> s1[m].key@ == #[trigger] s0[m].key@);
    assert forall|m: int, n: int| 0 <= m < n < s1.len() implies lex_lt(
        s1[m].key@,
        s1[n].key@,
    ) by {
        assert(lex_lt(s0[m].key@, s0[n].key@));
    }
    let m0 = entries_as_map(s0).insert(k, e.value@);
    let m1 = entries_as_map(s1);
    assert forall|kk: Seq<u8>| #[trigger] entries_have_key(s1, kk) implies entries_have_key(
        s0,
        kk,
    ) by {
        let j = choose|j: int| 0 <= j < s1.len() && s1[j].key@ == kk;
        assert(s0[j].key@ == kk);
    }
    assert forall|kk: Seq<u8>| #[trigger] entries_have_key(s0, kk) implies entries_have_key(
        s1,
        kk,
    ) by {
        let j = choose|j: int| 0 <= j < s0.len() && s0[j].key@ == kk;
        assert(s1[j].key@ == kk);
    }
    assert(entries_have_key(s0, k));
    assert forall|kk: Seq<u8>| m1.dom().contains(kk) implies m1[kk] == m0[kk] by {
        if kk == k {
            lemma_entries_as_map_at(s1, i);
        } else {
            let j = choose|j: int| 0 <= j < s0.len() && s0[j].key@ == kk;
            assert(j != i);
            assert(s1[j] == s0[j]);
            lemma_entries_as_map_at(s1, j);
            lemma_entries_as_map_at(s0, j);
        }
    }
    assert(m1 =~= m0);
}

/// Splicing a fresh account's entry in at its ordered position keeps the
/// entries sorted and adds exactly that account to the map.
proof fn lemma_insert_entry(s0: Seq<CodeEntry>, i: int, e: CodeEntry)
    requires
        entries_sorted(s0),
        0 <= i <= s0.len(),
        forall|j: int| 0 <= j < i ==> lex_lt(s0[j].key@, e.key@),
        forall|j: int| i <= j < s0.len() ==> lex_lt(e.key@, s0[j].key@),
    ensures
        entries_sorted(s0.insert(i, e)),
        entries_as_map(s0.insert(i, e)) == entries_as_map(s0).insert(e.key@, e.value@),
{
    let s1 = s0.insert(i, e);
    let k = e.key@;
    s0.insert_ensures(i, e);
    assert forall|m: int, n: int| 0 <= m < n < s1.len() implies lex_lt(
        s1[m].key@,
        s1[n].key@,
    ) by {
        if n < i {
            assert(s1[m] == s0[m] && s1[n] == s0[n]);
        } else if n == i {
            assert(s1[m] == s0[m]);
            assert(lex_lt(s0[m].key@, k));
        } else {
            assert(s1[n] == s0[n - 1]);
            if m < i {
                assert(s1[m] == s0[m]);
                if m == n - 1 {
                    assert(lex_lt(s0[m].key@, k));
                    lemma_lex_lt_transitive(s0[m].key@, k, s0[n - 1].key@);
                }
            } else if m == i {
                assert(s1[m] == e);
                assert(lex_lt(k, s0[n - 1].key@));
            } else {
                assert(s1[m] == s0[m - 1]);
            }
        }
    }
    // the fresh account is not among the old entries
    assert forall|j: int| 0 <= j < s0.len() implies s0[j].key@ != k by {
        if j < i {
            lemma_lex_lt_asymmetric(s0[j].key@, k);
        } else {
            lemma_lex_lt_asymmetric(k, s0[j].key@);
        }
    }
    let m0 = entries_as_map(s0).insert(k, e.value@);
    let m1 = entries_as_map(s1);
    assert forall|kk: Seq<u8>| #[trigger] entries_have_key(s1, kk) implies kk == k
        || entries_have_key(s0, kk) by {
        let j = choose|j: int| 0 <= j < s1.len() && s1[j].key@ == kk;
        if j < i {
            assert(s0[j].key@ == kk);
        } else if j > i {
            assert(s0[j - 1].key@ == kk);
        }
    }
    assert forall|kk: Seq<u8>| #[trigger] entries_have_key(s0, kk) implies entries_have_key(
        s1,
        kk,
    ) by {
        let j = choose|j: int| 0 <= j < s0.len() && s0[j].key@ == kk;
        if j < i {
            assert(s1[j].key@ == kk);
        } else {
            assert(s1[j + 1].key@ == kk);
        }
    }
    assert(entries_have_key(s1, k)) by {
        assert(s1[i].key@ == k);
    }
    assert forall|kk: Seq<u8>| m1.dom().contains(kk) implies m1[kk] == m0[kk] by {
        if kk == k {
            lemma_entries_as_map_at(s1, i);
        } else {
            let j = choose|j: int| 0 <= j < s0.len() && s0[j].key@ == kk;
            lemma_entries_as_map_at(s0, j);
            if j < i {
                assert(s1[j] == s0[j]);
                lemma_entries_as_map_at(s1, j);
            } else {
                assert(s1[j + 1] == s0[j]);
                lemma_entries_as_map_at(s1, j + 1);
            }
        }
    }
    assert(m1 =~= m0);
}

impl SecretB64Code {
    /// Well-formedness of the contract state.
    pub closed spec fn wf(&self) -> bool {
        entries_sorted(self.b64code@)
    }

    /// The state seen mathematically: the map from account identity to the
    /// stored payload.
    pub closed spec fn codes(&self) -> Map<Seq<u8>, Seq<char>> {
        entries_as_map(self.b64code@)
    }

    /// Initializes the contract: deployed with no stored payloads.
    pub fn new() -> (r: Self)
        ensures
            r.wf(),
            r.codes() == Map::<Seq<u8>, Seq<char>>::empty(),
    {
        Default::default()
    }

    /// Stores `value` as the payload of `key`'s account, strictly replacing
    /// any prior payload: the single mutation of the contract state.
    fn set_code(&mut self, key: AccountIdWrapper, value: String)
        requires
            old(self).wf(),
        ensures
            final(self).wf(),
            final(self).codes() == old(self).codes().insert(key@, value@),
    {
        let ghost s0 = self.b64code@;
        let ghost kv = key@;
        let n = self.b64code.len();
        let mut i: usize = 0;
        while i < n && self.b64code[i].key.lt(&key)
            invariant
                self.b64code@ == s0,
                entries_sorted(s0),
                n == s0.len(),
                i <= n,
                kv == key@,
                forall|j: int| 0 <= j < i ==> lex_lt(s0[j].key@, kv),
            decreases n - i,
        {
            i = i + 1;
        }
        if i < n && self.b64code[i].key.key_eq(&key) {
            let ghost iv = i as int;
            let entry = CodeEntry { key, value };
            self.b64code[i] = entry;
            proof {
                lemma_replace_entry(s0, iv, self.b64code@[iv]);
            }
        } else {
            proof {
                if i < n {
                    lemma_lex_lt_trichotomy(kv, s0[i as int].key@);
                    assert(lex_lt(kv, s0[i as int].key@));
                }
                assert forall|j: int| i <= j < n implies lex_lt(kv, s0[j].key@) by {
                    if j > i {
                        lemma_lex_lt_transitive(kv, s0[i as int].key@, s0[j].key@);
                    }
                }
            }
            let ghost iv = i as int;
            let entry = CodeEntry { key, value };
            proof {
                lemma_insert_entry(s0, iv, entry);
            }
            self.b64code.insert(i, entry);
        }
    }

    /// The whole state as an ordered account-to-payload relation: every
    /// stored entry in strictly increasing account order, each payload the
    /// one the state maps its account to. This is the shape in which the
    /// state serializes deterministically across replicas.
    pub fn entries(&self) -> (r: Vec<(AccountIdWrapper, String)>)
        requires
            self.wf(),
        ensures
            forall|i: int, j: int| 0 <= i < j < r@.len() ==> lex_lt(r@[i].0@, r@[j].0@),
            forall|i: int|
                0 <= i < r@.len() ==> self.codes().dom().contains(#[trigger] r@[i].0@)
                    && self.codes()[r@[i].0@] == r@[i].1@,
            forall|k: Seq<u8>|
                #[trigger] self.codes().dom().contains(k) ==> exists|i: int|
                    0 <= i < r@.len() && r@[i].0@ == k,
    {
        let n = self.b64code.len();
        let mut r: Vec<(AccountIdWrapper, String)> = Vec::new();
        let mut i: usize = 0;
        while i < n
            invariant
                self.wf(),
                n == self.b64code@.len(),
                i <= n,
                r@.len() == i,
                forall|j: int|
                    0 <= j < i ==> (#[trigger] r@[j]).0@ == self.b64code@[j].key@
                        && r@[j].1@ == self.b64code@[j].value@,
            decreases n - i,
        {
            let kc = self.b64code[i].key.clone();
            let vc = self.b64code[i].value.clone();
            r.push((kc, vc));
            i = i + 1;
        }
        proof {
            let s = self.b64code@;
            assert forall|a: int, b: int| 0 <= a < b < r@.len() implies lex_lt(
                r@[a].0@,
                r@[b].0@,
            ) by {
                assert(lex_lt(s[a].key@, s[b].key@));
            }
            assert forall|a: int|
                0 <= a < r@.len() implies self.codes().dom().contains(#[trigger] r@[a].0@)
                    && self.codes()[r@[a].0@] == r@[a].1@ by {
                lemma_entries_as_map_at(s, a);
            }
            assert forall|k: Seq<u8>| #[trigger] self.codes().dom().contains(k) implies exists|a: int|
                0 <= a < r@.len() && r@[a].0@ == k by {
                let j = choose|j: int| 0 <= j < s.len() && s[j].key@ == k;
                assert(r@[j].0@ == k);
            }
        }
        r
    }

    /// The stored payload of `key`'s account, where there is one.
    fn lookup(&self, key: &AccountIdWrapper) -> (r: Option<&String>)
        requires
            self.wf(),
        ensures
            match r {
                Some(v) => self.codes().dom().contains(key@) && v@ == self.codes()[key@],
                None => !self.codes().dom().contains(key@),
            },
    {
        let n = self.b64code.len();
        let mut i: usize = 0;
        while i < n
            invariant
                self.wf(),
                n == self.b64code@.len(),
                i <= n,
                forall|j: int| 0 <= j < i ==> self.b64code@[j].key@ != key@,
            decreases n - i,
        {
            if self.b64code[i].key.key_eq(key) {
                proof {
                    lemma_entries_as_map_at(self.b64code@, i as int);
                }
                return Some(&self.b64code[i].value);
            }
            i = i + 1;
        }
        proof {
            assert(!entries_have_key(self.b64code@, key@));
        }
        None
    }
}

impl Contract<Command, Request, Response> for SecretB64Code {
    open spec fn inv(&self) -> bool {
        self.wf()
    }

    open spec fn contract_id(&self) -> ContractId {
        SECRETB64CODE
    }

    /// `SetB64Code` unconditionally upserts the origin's payload and always
    /// reports acceptance: the mutation and the status are pinned down for
    /// every input, so command handling cannot fail.
    open spec fn command_post(
        pre: Self,
        post: Self,
        origin: AccountIdWrapper,
        cmd: Command,
        status: TransactionStatus,
    ) -> bool {
        match cmd {
            Command::SetB64Code { b64code } => {
                &&& post.codes() == pre.codes().insert(origin@, b64code@)
                &&& status == TransactionStatus::Accepted
            },
        }
    }

    open spec fn query_post(
        pre: Self,
        origin: Option<Seq<u8>>,
        req: Request,
        resp: Response,
    ) -> bool {
        match req {
            Request::DecodeB64Code => decode_query_post(pre.codes(), origin, resp),
        }
    }

    fn id(&self) -> ContractId {
        SECRETB64CODE
    }

    /// Handles one command from a finalized blockchain transaction. The
    /// transaction reference is passed through for audit use only.
    fn handle_command(
        &mut self,
        origin: &AccountIdWrapper,
        _txref: &TxRef,
        cmd: Command,
    ) -> TransactionStatus {
        match cmd {
            Command::SetB64Code { b64code } => {
                let current_user = origin.clone();
                self.set_code(current_user, b64code);
                TransactionStatus::Accepted
            },
        }
    }

    /// Handles one direct query and responds to it without modifying the
    /// contract state.
    fn handle_query(&mut self, origin: Option<&AccountIdWrapper>, req: Request) -> Response {
        match req {
            Request::DecodeB64Code => {
                if let Some(account) = origin {
                    match self.lookup(account) {
                        Some(stored) => match base64_decode(stored) {
                            Some(decmsg) => match utf8_decode(decmsg) {
                                Some(decmsgstr) => Response::DecodeB64Code {
                                    decnote: decmsgstr,
                                },
                                None => Response::Error(Error::DecodeFailed),
                            },
                            None => Response::Error(Error::DecodeFailed),
                        },
                        None => Response::Error(Error::NotAuthorized),
                    }
                } else {
                    Response::Error(Error::NotAuthorized)
                }
            },
        }
    }
}

impl Default for SecretB64Code {
    /// The freshly deployed state: no account has stored anything yet.
    fn default() -> (r: Self)
        ensures
            r.wf(),
            r.codes() == Map::<Seq<u8>, Seq<char>>::empty(),
    {
        let r = SecretB64Code { b64code: Vec::new() };
        proof {
            assert(r.codes() =~= Map::<Seq<u8>, Seq<char>>::empty());
        }
        r
    }
}

} // verus!
