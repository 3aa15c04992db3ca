//! Liveness tokens. A candidate carries a token; whoever starts its download
//! receives it and the table keeps a share. When every share but the table's
//! own has been dropped, the download has been abandoned.

use std::sync::Arc;
use vstd::prelude::*;

verus! {

/// `Arc::clone` on a token: one more share of it.
#[verifier::external_body]
pub(crate) fn share_token(token: &Arc<()>) -> (share: Arc<()>) {
    Arc::clone(token)
}

/// `Arc::strong_count` on a token: how many shares exist at the moment of
/// the call. The count depends on what the other holders have done, so nothing
/// is claimed of it.
#[verifier::external_body]
pub(crate) fn token_shares(token: &Arc<()>) -> (shares: usize) {
    Arc::strong_count(token)
}

/// Whether the share held by the table is the last one left.
pub(crate) fn is_abandoned(token: &Arc<()>) -> (abandoned: bool) {
    is_last_share(token_shares(token))
}

/// Whether a token of which `shares` shares exist is held by the table
/// alone: the table's own share is one of them, so no holder is left where
/// there is one share or none.
pub fn is_last_share(shares: usize) -> (last: bool)
    ensures
        last == (shares <= 1),
{
    shares <= 1
}

/// Whether `id` is one of the downloads that `abandoned` lists.
pub fn is_listed(abandoned: &Vec<u128>, id: u128) -> (listed: bool)
    ensures
        listed == abandoned@.contains(id),
{
    let mut i: usize = 0;
    while i < abandoned.len()
        invariant
            0 <= i <= abandoned.len(),
            forall|j: int| 0 <= j < i ==> abandoned[j] != id,
        decreases abandoned.len() - i,
    {
        if abandoned[i] == id {
            return true;
        }
        i = i + 1;
    }
    false
}

} // verus!
