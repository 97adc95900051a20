//! The boundary the host runtime sees: the identifier under which a contract
//! is registered, the opaque reference to the transaction that carried a
//! command, the outcome status a command hands back, and the uniform
//! interface through which the host dispatches commands and queries to every
//! registered contract.

use vstd::prelude::*;
use crate::account::AccountIdWrapper;

verus! {

/// Stable identifier under which the host runtime routes to a contract.
pub type ContractId = u32;

/// Opaque reference to the blockchain transaction that carried a command.
/// It is passed through to command handling for audit use; no contract
/// interprets it.
#[derive(Clone, Copy, Debug, PartialEq, Eq, Structural)]
pub struct TxRef {
    pub blocknum: u64,
    pub index: u64,
}

/// Outcome status a command hands back to the host's transaction log. This
/// is the only thing a command returns: commands carry no data response.
#[derive(Clone, Copy, Debug, PartialEq, Eq, Structural)]
pub enum TransactionStatus {
    Accepted,
}

/// The authenticated origin a query may carry, seen as raw identifier bytes.
pub open spec fn origin_view(origin: Option<&AccountIdWrapper>) -> Option<Seq<u8>> {
    match origin {
        Some(acct) => Some(acct@),
        None => None,
    }
}

/// The uniform shape of every stateful contract in the runtime: a stable
/// identifier, a write path that applies an authenticated command to the
/// state and reports an outcome status, and a read path that answers a query
/// under an optional authenticated origin without touching the state.
///
/// Each implementation names its own well-formedness invariant and says in
/// `command_post` and `query_post` what its two channels promise; the host
/// dispatches through this interface without contract-specific knowledge.
pub trait Contract<Cmd, Req, Resp>: Sized {
    /// Well-formedness of the contract state, established at instantiation
    /// and maintained by every handler.
    spec fn inv(&self) -> bool;

    /// The identifier under which the host routes to this contract.
    spec fn contract_id(&self) -> ContractId;

    /// What command handling promises: how the state after the command and
    /// the returned status relate to the prior state, the origin and the
    /// command.
    spec fn command_post(
        pre: Self,
        post: Self,
        origin: AccountIdWrapper,
        cmd: Cmd,
        status: TransactionStatus,
    ) -> bool;

    /// What query handling promises of the response it returns.
    spec fn query_post(pre: Self, origin: Option<Seq<u8>>, req: Req, resp: Resp) -> bool;

    /// Returns the contract's identifier.
    fn id(&self) -> (r: ContractId)
        ensures
            r == self.contract_id(),
    ;

    /// Applies one command, delivered by the host in finalized transaction
    /// order under an authenticated origin. Commands mutate the state and
    /// respond only with an outcome status.
    fn handle_command(
        &mut self,
        origin: &AccountIdWrapper,
        txref: &TxRef,
        cmd: Cmd,
    ) -> (status: TransactionStatus)
        requires
            old(self).inv(),
        ensures
            final(self).inv(),
            Self::command_post(*old(self), *final(self), *origin, cmd, status),
    ;

    /// Answers one query under an optional authenticated origin. Queries
    /// never mutate the contract state.
    fn handle_query(&mut self, origin: Option<&AccountIdWrapper>, req: Req) -> (resp: Resp)
        requires
            old(self).inv(),
        ensures
            *final(self) == *old(self),
            Self::query_post(*old(self), origin_view(origin), req, resp),
    ;
}

} // verus!
