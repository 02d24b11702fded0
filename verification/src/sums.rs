//! Sums over the payment table: the outstanding reservation owed by each
//! sender, and the completed-payment totals behind the statistics query.

use vstd::prelude::*;
use crate::types::{payment_cost, AccountId, Balance, InterCountryPayment, PaymentStatus};

verus! {

/// What the custodian must still hold in reserve for `p` on behalf of `a`:
/// amount plus fee while the payment is pending or authorized, nothing
/// otherwise.
pub open spec fn outstanding_cost(p: InterCountryPayment, a: AccountId, fee: Balance) -> int {
    if p.from_government == a
        && (p.status == PaymentStatus::Pending || p.status == PaymentStatus::Authorized) {
        payment_cost(p.amount, fee) as int
    } else {
        0
    }
}

/// Total reservation owed to `a`'s pending and authorized payments.
pub open spec fn outstanding_total(s: Seq<InterCountryPayment>, a: AccountId, fee: Balance) -> int
    decreases s.len(),
{
    if s.len() == 0 {
        0
    } else {
        outstanding_cost(s[0], a, fee) + outstanding_total(s.drop_first(), a, fee)
    }
}

/// The outstanding total is never negative.
pub proof fn lemma_outstanding_nonneg(s: Seq<InterCountryPayment>, a: AccountId, fee: Balance)
    ensures
        outstanding_total(s, a, fee) >= 0,
    decreases s.len(),
{
    if s.len() > 0 {
        lemma_outstanding_nonneg(s.drop_first(), a, fee);
    }
}

/// Each payment's outstanding cost is covered by the total.
pub proof fn lemma_outstanding_bound(s: Seq<InterCountryPayment>, a: AccountId, fee: Balance, i: int)
    requires
        0 <= i < s.len(),
    ensures
        outstanding_total(s, a, fee) >= outstanding_cost(s[i], a, fee),
    decreases s.len(),
{
    if i == 0 {
        lemma_outstanding_nonneg(s.drop_first(), a, fee);
    } else {
        lemma_outstanding_bound(s.drop_first(), a, fee, i - 1);
        assert(outstanding_cost(s[0], a, fee) >= 0);
    }
}

/// Appending a payment adds exactly its outstanding cost.
pub proof fn lemma_outstanding_push(
    s: Seq<InterCountryPayment>,
    p: InterCountryPayment,
    a: AccountId,
    fee: Balance,
)
    ensures
        outstanding_total(s.push(p), a, fee) == outstanding_total(s, a, fee)
            + outstanding_cost(p, a, fee),
    decreases s.len(),
{
    let t = s.push(p);
    if s.len() == 0 {
        assert(t[0] == p);
        assert(t.drop_first() =~= Seq::<InterCountryPayment>::empty());
        assert(outstanding_total(t.drop_first(), a, fee) == 0);
    } else {
        assert(t[0] == s[0]);
        assert(t.drop_first() =~= s.drop_first().push(p));
        assert(t.drop_first() == s.drop_first().push(p));
        lemma_outstanding_push(s.drop_first(), p, a, fee);
    }
}

/// Replacing the payment at `i` shifts the total by the difference of the
/// two outstanding costs.
pub proof fn lemma_outstanding_update(
    s: Seq<InterCountryPayment>,
    i: int,
    p: InterCountryPayment,
    a: AccountId,
    fee: Balance,
)
    requires
        0 <= i < s.len(),
    ensures
        outstanding_total(s.update(i, p), a, fee) == outstanding_total(s, a, fee)
            - outstanding_cost(s[i], a, fee) + outstanding_cost(p, a, fee),
    decreases s.len(),
{
    let t = s.update(i, p);
    if i == 0 {
        assert(t.drop_first() =~= s.drop_first());
    } else {
        assert(t[0] == s[0]);
        assert(t.drop_first() =~= s.drop_first().update(i - 1, p));
        lemma_outstanding_update(s.drop_first(), i - 1, p, a, fee);
    }
}

/// Saturating addition on mathematical values, clamped at the balance
/// ceiling.
pub open spec fn sat_add(a: int, b: int) -> int {
    if a + b > Balance::MAX {
        Balance::MAX as int
    } else {
        a + b
    }
}

/// Payment looked up by identifier: payments are stored in initiation
/// order, identifiers counting up from `base`.
pub open spec fn lookup_payment(s: Seq<InterCountryPayment>, base: u64, id: u64)
    -> Option<InterCountryPayment> {
    if base <= id && id - base < s.len() {
        Some(s[id - base])
    } else {
        None
    }
}

/// What a payment contributes to `a`'s total-sent statistic: its amount,
/// when it completed and `a` sent it.
pub open spec fn sent_contrib(p: Option<InterCountryPayment>, a: AccountId) -> int {
    match p {
        Some(p) => if p.status == PaymentStatus::Completed && p.from_government == a {
            p.amount as int
        } else {
            0
        },
        None => 0,
    }
}

/// What a payment contributes to `a`'s total-received statistic: its
/// amount, when it completed, `a` received it and someone else sent it.
pub open spec fn received_contrib(p: Option<InterCountryPayment>, a: AccountId) -> int {
    match p {
        Some(p) => if p.status == PaymentStatus::Completed && p.from_government != a
            && p.to_government == a {
            p.amount as int
        } else {
            0
        },
        None => 0,
    }
}

/// Left-to-right saturating fold of `a`'s sent amounts over the history
/// identifiers `ids`, starting from `acc`.
pub open spec fn sent_from(
    s: Seq<InterCountryPayment>,
    base: u64,
    ids: Seq<u64>,
    a: AccountId,
    acc: int,
) -> int
    decreases ids.len(),
{
    if ids.len() == 0 {
        acc
    } else {
        sent_from(s, base, ids.drop_first(), a, sat_add(acc, sent_contrib(lookup_payment(s, base, ids[0]), a)))
    }
}

/// Left-to-right saturating fold of `a`'s received amounts over `ids`.
pub open spec fn received_from(
    s: Seq<InterCountryPayment>,
    base: u64,
    ids: Seq<u64>,
    a: AccountId,
    acc: int,
) -> int
    decreases ids.len(),
{
    if ids.len() == 0 {
        acc
    } else {
        received_from(s, base, ids.drop_first(), a, sat_add(acc, received_contrib(lookup_payment(s, base, ids[0]), a)))
    }
}

/// Total amount `a` sent in completed payments it initiated.
pub open spec fn total_sent(s: Seq<InterCountryPayment>, base: u64, ids: Seq<u64>, a: AccountId) -> int {
    sent_from(s, base, ids, a, 0)
}

/// Total amount `a` received in completed payments recorded in its history.
pub open spec fn total_received(s: Seq<InterCountryPayment>, base: u64, ids: Seq<u64>, a: AccountId) -> int {
    received_from(s, base, ids, a, 0)
}

/// Unrolling one step of the folds from the front.
pub proof fn lemma_fold_step(
    s: Seq<InterCountryPayment>,
    base: u64,
    ids: Seq<u64>,
    a: AccountId,
    acc_s: int,
    acc_r: int,
    k: int,
)
    requires
        0 <= k < ids.len(),
    ensures
        sent_from(s, base, ids.subrange(k, ids.len() as int), a, acc_s)
            == sent_from(s, base, ids.subrange(k + 1, ids.len() as int), a,
                sat_add(acc_s, sent_contrib(lookup_payment(s, base, ids[k]), a))),
        received_from(s, base, ids.subrange(k, ids.len() as int), a, acc_r)
            == received_from(s, base, ids.subrange(k + 1, ids.len() as int), a,
                sat_add(acc_r, received_contrib(lookup_payment(s, base, ids[k]), a))),
{
    let tail = ids.subrange(k, ids.len() as int);
    assert(tail[0] == ids[k]);
    assert(tail.drop_first() =~= ids.subrange(k + 1, ids.len() as int));
}

} // verus!
