//! Decisions of the redeem-only mode: which conditions to redeem and how the outcome is
//! tallied.

use vstd::prelude::*;
use crate::text::{has_prefix, text_starts_with};

verus! {

/// The condition id with a `0x` prefix: unchanged when it has one, prefixed otherwise.
pub open spec fn normalized_condition_id(cid: Seq<char>) -> Seq<char> {
    if has_prefix(cid, "0x"@) {
        cid
    } else {
        "0x"@ + cid
    }
}

/// Prefixes a condition id with `0x` unless it already starts with it.
pub fn normalize_condition_id(cid: &str) -> (r: String)
    ensures
        r@ == normalized_condition_id(cid@),
{
    if text_starts_with(cid, "0x") {
        String::from_str(cid)
    } else {
        String::from_str("0x").concat(cid)
    }
}

/// A normalized condition id starts with `0x`, and normalizing it again changes nothing.
pub proof fn lemma_normalize_idempotent(cid: Seq<char>)
    ensures
        has_prefix(normalized_condition_id(cid), "0x"@),
        normalized_condition_id(normalized_condition_id(cid)) == normalized_condition_id(cid),
{
    reveal_strlit("0x");
    if !has_prefix(cid, "0x"@) {
        let n = "0x"@ + cid;
        assert(n.subrange(0, 2) =~= "0x"@);
    }
}

/// Why redeem-only mode cannot start.
#[derive(Clone, Copy, Debug, PartialEq, Eq, Structural)]
pub enum RedeemError {
    /// Redeeming needs `proxy_wallet_address` in the configuration.
    MissingProxyWallet,
}

/// What redeem-only mode redeems.
pub enum RedeemPlan {
    /// Exactly this (normalized) condition id.
    Single { condition_id: String },
    /// Every redeemable position of this proxy wallet, fetched first.
    AllRedeemable { proxy: String },
}

/// Decides what redeem-only mode redeems: an error without a proxy wallet address; else
/// the given condition id with a `0x` prefix, or every redeemable position of the wallet.
pub fn plan_redeem(proxy_wallet: &Option<String>, condition_id: &Option<String>) -> (r: Result<
    RedeemPlan,
    RedeemError,
>)
    ensures
        proxy_wallet is None <==> r == Err::<RedeemPlan, RedeemError>(RedeemError::MissingProxyWallet),
        proxy_wallet is Some ==> r is Ok,
        r matches Ok(RedeemPlan::Single { condition_id: c }) ==> condition_id is Some
            && c@ == normalized_condition_id(condition_id->0@),
        r matches Ok(RedeemPlan::AllRedeemable { proxy }) ==> condition_id is None && proxy_wallet
            is Some && proxy@ == proxy_wallet->0@,
        proxy_wallet is Some ==> (r matches Ok(RedeemPlan::Single { .. })) == (condition_id is Some),
{
    let proxy = match proxy_wallet {
        Some(p) => p,
        None => {
            return Err(RedeemError::MissingProxyWallet);
        },
    };
    match condition_id {
        Some(cid) => Ok(RedeemPlan::Single { condition_id: normalize_condition_id(cid.as_str()) }),
        None => Ok(RedeemPlan::AllRedeemable { proxy: proxy.clone() }),
    }
}

/// Counts of redemptions that succeeded and failed.
pub struct RedeemTally {
    pub succeeded: u32,
    pub failed: u32,
}

impl RedeemTally {
    /// No redemption counted yet.
    pub fn new() -> (r: Self)
        ensures
            r.succeeded == 0,
            r.failed == 0,
    {
        RedeemTally { succeeded: 0, failed: 0 }
    }

    /// Counts one redemption's outcome.
    pub fn record(&mut self, success: bool)
        requires
            success ==> old(self).succeeded < u32::MAX,
            !success ==> old(self).failed < u32::MAX,
        ensures
            success ==> final(self).succeeded == old(self).succeeded + 1 && final(self).failed
                == old(self).failed,
            !success ==> final(self).failed == old(self).failed + 1 && final(self).succeeded
                == old(self).succeeded,
    {
        if success {
            self.succeeded = self.succeeded + 1;
        } else {
            self.failed = self.failed + 1;
        }
    }
}

} // verus!
