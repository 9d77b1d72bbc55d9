//! The global laws of the exchange, stated and proved once over any
//! well-formed state.

use vstd::prelude::*;
use crate::asset::{balances_except, issuance_except};
use crate::keyed::{lemma_first_match_is_present, sum_vals, KeyedRec};
use crate::primitives::Balance;
use crate::state::{spec_balance, spec_issuance, spec_pool, Dex};

verus! {

/// Fee bounds: every pool's exchange fee is at most its total fee, which is
/// below the fee divisor.
pub proof fn lemma_pool_fee_bounds(d: Dex, pid: Seq<u8>)
    requires
        d.wf(),
        spec_pool(d, pid) is Some,
    ensures
        spec_pool(d, pid)->Some_0.info.exchange_fee <= spec_pool(d, pid)->Some_0.info.total_fee
            < 10000,
{
    lemma_first_match_is_present(d.pools@, pid);
}

/// Conservation of shares: every pool's recorded total supply equals the sum
/// of its per-account share balances.
pub proof fn lemma_pool_shares_conservation(d: Dex, pid: Seq<u8>)
    requires
        d.wf(),
        spec_pool(d, pid) is Some,
    ensures
        spec_pool(d, pid)->Some_0.info.shares_total_supply as int == sum_vals(
            spec_pool(d, pid)->Some_0.info.shares_data@,
        ),
{
    lemma_first_match_is_present(d.pools@, pid);
}

/// Round trip: minting an amount to an account and then burning the same
/// amount from it restores every balance and every issuance.
///
/// The two hypotheses state exactly what a successful `mint_asset` and a
/// successful `burn_asset` of the same symbol, account and amount ensure
/// about the ledger.
pub proof fn lemma_mint_then_burn_restores(
    d0: Dex,
    d1: Dex,
    d2: Dex,
    sym: Seq<u8>,
    who: Seq<u8>,
    amount: Balance,
)
    requires
        spec_balance(d1, sym, who) == spec_balance(d0, sym, who) + amount,
        spec_issuance(d1, sym) == spec_issuance(d0, sym) + amount,
        issuance_except(d0, d1, sym),
        balances_except(d0, d1, sym, who),
        spec_balance(d2, sym, who) == spec_balance(d1, sym, who) - amount,
        spec_issuance(d2, sym) == spec_issuance(d1, sym) - amount,
        issuance_except(d1, d2, sym),
        balances_except(d1, d2, sym, who),
    ensures
        forall|s: Seq<u8>, a: Seq<u8>| spec_balance(d2, s, a) == spec_balance(d0, s, a),
        forall|s: Seq<u8>| spec_issuance(d2, s) == spec_issuance(d0, s),
{
    assert forall|s: Seq<u8>, a: Seq<u8>| true implies spec_balance(d2, s, a) == spec_balance(
        d0,
        s,
        a,
    ) by {
        if s != sym || a != who {
            assert(spec_balance(d1, s, a) == spec_balance(d0, s, a));
            assert(spec_balance(d2, s, a) == spec_balance(d1, s, a));
        }
    }
    assert forall|s: Seq<u8>| true implies spec_issuance(d2, s) == spec_issuance(d0, s) by {
        if s != sym {
            assert(spec_issuance(d1, s) == spec_issuance(d0, s));
            assert(spec_issuance(d2, s) == spec_issuance(d1, s));
        }
    }
}

} // verus!
