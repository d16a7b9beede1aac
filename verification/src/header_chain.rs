//! The finality collaborator: an oracle that knows, for each header a
//! chain has finalized, the state root that header commits to.
//!
//! The protocol only ever asks "is this header finalized, and what is its
//! state root?" — it never cares whether a newer header exists, so a
//! proof built on an older finalized header verifies just as well.

use vstd::prelude::*;

verus! {

/// An oracle over one chain's finalized headers. `None` means the header
/// is not (yet) finalized on this side, so nothing rooted in it can be
/// verified — a retryable condition, not a fault of the message.
pub trait HeaderChainOracle {
    /// Which state root, if any, the oracle answers for `header`.
    spec fn spec_finalized_root(&self, header: u64) -> Option<u64>;

    /// Return the state root of the finalized header `header`, or `None`
    /// if no such header has been finalized or imported here.
    fn finalized_header_state_root(&self, header: u64) -> (r: Option<u64>)
        ensures
            r == self.spec_finalized_root(header),
    ;
}

} // verus!
