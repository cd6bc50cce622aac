//! Shamir secret sharing over GF(2^8), through `sharks`.
use vstd::prelude::*;

use sharks::{Share, Sharks};
use std::convert::TryFrom;

use crate::crypto::erasure::rows;

verus! {

/// What `Sharks(threshold).recover` makes of shares given as bytes (the x
/// coordinate, then one y byte per secret byte); `None` when it reports an error.
pub uninterp spec fn sharks_recovered(threshold: u8, shares: Seq<Seq<u8>>) -> Option<Seq<u8>>;

/// `chosen` is a selection of distinct members of `pool`.
pub open spec fn selection_of(chosen: Seq<Seq<u8>>, pool: Seq<Seq<u8>>) -> bool {
    chosen.no_duplicates() && forall|k: int| 0 <= k < chosen.len() ==> pool.contains(
        #[trigger] chosen[k],
    )
}

/// Calls `Sharks(threshold).dealer(secret)` and takes `count` shares, each as bytes
/// (`Vec::from(&Share)`). Claimed: `count` shares, the one at position i with x
/// coordinate i + 1 followed by one byte per secret byte; the y bytes are random.
/// Any `threshold` or more distinct shares of them recover the secret: they are
/// points of polynomials of degree `threshold - 1` whose value at 0 is the secret
/// (Shamir's scheme, which the dealer implements).
#[verifier::external_body]
pub(crate) fn sharks_deal(secret: &[u8], threshold: u8, count: u8) -> (r: Vec<Vec<u8>>)
    requires
        1 <= threshold <= count,
    ensures
        r@.len() == count,
        forall|i: int|
            0 <= i < count ==> (#[trigger] r@[i])@.len() == secret@.len() + 1 && r@[i]@[0] == i
                + 1,
        forall|chosen: Seq<Seq<u8>>|
            #![trigger sharks_recovered(threshold, chosen)]
            selection_of(chosen, rows(r@)) && chosen.len() >= threshold ==> sharks_recovered(
                threshold,
                chosen,
            ) == Some(secret@),
{
    let mut out: Vec<Vec<u8>> = Vec::new();
    for share in Sharks(threshold).dealer(secret).take(count as usize) {
        out.push(Vec::from(&share));
    }
    out
}

/// Calls `Share::try_from` on the bytes of a share. Claimed: it succeeds exactly
/// on two bytes or more, and otherwise fails with the crate's message.
#[verifier::external_body]
pub(crate) fn share_check(bytes: &[u8]) -> (r: Result<(), String>)
    ensures
        r is Ok <==> bytes@.len() >= 2,
        r matches Err(m) ==> m@ == "A Share must be at least 2 bytes long"@,
{
    Share::try_from(bytes).map(|_| ()).map_err(|e| e.to_string())
}

/// Calls `Share::try_from` on each share and `Sharks(threshold).recover` on them.
/// Claimed: the result is `sharks_recovered` of the shares; the error is the crate's message.
#[verifier::external_body]
pub(crate) fn sharks_recover(threshold: u8, shares: &Vec<Vec<u8>>) -> (r: Result<Vec<u8>, String>)
    requires
        forall|i: int| 0 <= i < shares@.len() ==> (#[trigger] shares@[i])@.len() >= 2,
    ensures
        match sharks_recovered(threshold, rows(shares@)) {
            Some(s) => r is Ok && r->Ok_0@ == s,
            None => r is Err,
        },
{
    let mut parsed: Vec<Share> = Vec::new();
    for bytes in shares.iter() {
        match Share::try_from(bytes.as_slice()) {
            Ok(share) => parsed.push(share),
            Err(e) => return Err(e.to_string()),
        }
    }
    Sharks(threshold).recover(&parsed).map_err(|e| e.to_string())
}

} // verus!
