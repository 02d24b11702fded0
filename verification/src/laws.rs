//! Ledger-wide laws, stated and proved over the well-formedness invariant
//! and the operations' contracts.
//!
//! Laws that are single-operation contracts live in the operations'
//! `ensures` clauses instead: `sign_payment` states that a payment becomes
//! authorized exactly when the collected count reaches the sender's
//! current threshold; the `*_check` functions state from which states
//! `sign`, `execute` and `cancel` can succeed; and every mutating
//! operation ensures `Pallet::preserves_terminal`, so no call moves a
//! payment out of a terminal state.

use vstd::prelude::*;
use crate::types::{
    signers_distinct, signers_required, AccountId, Error, Origin, PaymentStatus,
};
use crate::pallet::Pallet;
use crate::sums::outstanding_total;

verus! {

/// At most one government record exists per account and per country code:
/// two distinct registry entries never share either key.
pub proof fn lemma_government_uniqueness(p: Pallet, i: int, j: int)
    requires
        p.wf(),
        0 <= i < j < p.registry.entries@.len(),
    ensures
        p.registry.entries@[i].account != p.registry.entries@[j].account,
        p.registry.entries@[i].info.country_code@ != p.registry.entries@[j].info.country_code@,
{
}

/// Registering an account or a country code that is already in use fails
/// with `GovernmentAlreadyRegistered`, whenever the call passes the
/// earlier authority and validity checks.
pub proof fn lemma_reregistration_fails(
    p: Pallet,
    account: AccountId,
    code: Seq<u8>,
    threshold: u32,
)
    requires
        p.wf(),
        code.len() <= p.config.max_country_code_len,
        threshold > 0,
        p.government(account).is_some() || p.registry.by_code(code).is_some(),
    ensures
        p.register_check(Origin::Root, account, code, threshold)
            == Err::<(), Error>(Error::GovernmentAlreadyRegistered),
{
}

/// Every payment's collected signers are unique, and each belongs to the
/// payment's required signer set.
pub proof fn lemma_signature_integrity(p: Pallet, id: u64)
    requires
        p.wf(),
        p.payment(id).is_some(),
    ensures
        signers_distinct(p.payment(id)->Some_0.signatures@),
        signers_required(
            p.payment(id)->Some_0.signatures@,
            p.payment(id)->Some_0.required_signatures@,
        ),
{
    let i = id - p.base();
    assert(p.payment_wf(p.payments@[i]));
}

/// Reservation conservation: the amount-plus-fee owed to all pending and
/// authorized payments of an account never exceeds that account's
/// reserved balance.
pub proof fn lemma_reservation_conservation(p: Pallet, a: AccountId)
    requires
        p.wf(),
    ensures
        outstanding_total(p.payments@, a, p.fee()) <= p.reserved(a),
{
    assert(outstanding_total(p.payments@, a, p.fee()) <= p.custodian.reserved(a));
}

/// The state machine is one-directional: execution succeeds only on an
/// authorized payment, and signing or cancelling only on a pending one.
/// No operation moves a terminal payment: every mutating operation also
/// ensures `Pallet::preserves_terminal`.
pub proof fn lemma_transitions_gated(p: Pallet, origin: Origin, id: u64)
    ensures
        p.execute_check(origin, id).is_ok()
            ==> p.payment(id)->Some_0.status == PaymentStatus::Authorized,
        p.sign_check(origin, id).is_ok()
            ==> p.payment(id)->Some_0.status == PaymentStatus::Pending,
        p.cancel_check(origin, id).is_ok()
            ==> p.payment(id)->Some_0.status == PaymentStatus::Pending,
{
}

/// Cancellation is not repeatable: once a payment is cancelled, a second
/// cancel — by anyone, the initiator included — fails with
/// `PaymentNotPending`. Together with `cancel_payment`'s contract, which
/// leaves a successfully cancelled payment in exactly that state, a
/// second call on the same identifier can never succeed.
pub proof fn lemma_cancel_once(p: Pallet, who: AccountId, id: u64)
    requires
        p.payment(id) matches Some(q) && q.status == PaymentStatus::Cancelled,
    ensures
        p.cancel_check(Origin::Signed(who), id) == Err::<(), Error>(Error::PaymentNotPending),
{
}

} // verus!
