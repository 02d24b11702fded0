//! Fund custodian: per-account free and reserved balances with
//! all-or-nothing reserve, release and transfer operations.
//!
//! This is the value-custody primitive the ledger settles through. Each
//! operation either fully applies its effect or applies none, and the sum
//! of an account's free and reserved balance never exceeds the numeric
//! ceiling, so moving value between the two sides can never overflow.

use vstd::prelude::*;
use crate::types::{AccountId, Balance};

verus! {

/// One account's holdings.
#[derive(Clone, Copy, Debug, PartialEq, Eq, Structural)]
pub struct BalanceEntry {
    pub account: AccountId,
    /// Freely spendable balance.
    pub free: Balance,
    /// Balance earmarked against pending payments.
    pub reserved: Balance,
}

/// Whether `a` has an entry in `s`.
pub open spec fn entries_have(s: Seq<BalanceEntry>, a: AccountId) -> bool
    decreases s.len(),
{
    if s.len() == 0 {
        false
    } else if s[0].account == a {
        true
    } else {
        entries_have(s.drop_first(), a)
    }
}

/// Free balance of `a` in `s`; accounts without an entry hold nothing.
pub open spec fn free_of(s: Seq<BalanceEntry>, a: AccountId) -> Balance
    decreases s.len(),
{
    if s.len() == 0 {
        0
    } else if s[0].account == a {
        s[0].free
    } else {
        free_of(s.drop_first(), a)
    }
}

/// Reserved balance of `a` in `s`; accounts without an entry hold nothing.
pub open spec fn reserved_of(s: Seq<BalanceEntry>, a: AccountId) -> Balance
    decreases s.len(),
{
    if s.len() == 0 {
        0
    } else if s[0].account == a {
        s[0].reserved
    } else {
        reserved_of(s.drop_first(), a)
    }
}

/// No account owns two entries.
pub open spec fn entries_distinct(s: Seq<BalanceEntry>) -> bool {
    forall|i: int, j: int| 0 <= i < j < s.len() ==> s[i].account != s[j].account
}

/// Membership agrees with the existence of an index.
pub proof fn lemma_have_iff_index(s: Seq<BalanceEntry>, a: AccountId)
    ensures
        entries_have(s, a) <==> exists|i: int| 0 <= i < s.len() && s[i].account == a,
    decreases s.len(),
{
    if s.len() > 0 {
        lemma_have_iff_index(s.drop_first(), a);
        if s[0].account == a {
        } else if entries_have(s.drop_first(), a) {
            let i = choose|i: int| 0 <= i < s.drop_first().len() && s.drop_first()[i].account == a;
            assert(s[i + 1].account == a);
        } else if exists|i: int| 0 <= i < s.len() && s[i].account == a {
            let i = choose|i: int| 0 <= i < s.len() && s[i].account == a;
            assert(s.drop_first()[i - 1].account == a);
        }
    }
}

/// An absent account holds nothing.
pub proof fn lemma_absent_zero(s: Seq<BalanceEntry>, a: AccountId)
    requires
        !entries_have(s, a),
    ensures
        free_of(s, a) == 0,
        reserved_of(s, a) == 0,
    decreases s.len(),
{
    if s.len() > 0 {
        lemma_absent_zero(s.drop_first(), a);
    }
}

/// The entry at the first index holding `a` decides `a`'s balances.
pub proof fn lemma_first_match(s: Seq<BalanceEntry>, a: AccountId, i: int)
    requires
        0 <= i < s.len(),
        s[i].account == a,
        forall|j: int| 0 <= j < i ==> s[j].account != a,
    ensures
        entries_have(s, a),
        free_of(s, a) == s[i].free,
        reserved_of(s, a) == s[i].reserved,
    decreases i,
{
    if i > 0 {
        lemma_first_match(s.drop_first(), a, i - 1);
    }
}

/// Replacing the entry at `i` (keeping its account) changes only that
/// account's balances.
pub proof fn lemma_update(s: Seq<BalanceEntry>, i: int, e: BalanceEntry, a: AccountId)
    requires
        entries_distinct(s),
        0 <= i < s.len(),
        e.account == s[i].account,
    ensures
        entries_distinct(s.update(i, e)),
        entries_have(s.update(i, e), a) == entries_have(s, a),
        free_of(s.update(i, e), a) == if a == e.account { e.free } else { free_of(s, a) },
        reserved_of(s.update(i, e), a) == if a == e.account { e.reserved } else { reserved_of(s, a) },
    decreases s.len(),
{
    if i == 0 {
        assert(s.update(0, e).drop_first() =~= s.drop_first());
    } else {
        assert(s.update(i, e).drop_first() =~= s.drop_first().update(i - 1, e));
        lemma_update(s.drop_first(), i - 1, e, a);
    }
}

/// Appending an entry for a fresh account changes only that account's
/// balances.
pub proof fn lemma_push(s: Seq<BalanceEntry>, e: BalanceEntry, a: AccountId)
    requires
        !entries_have(s, e.account),
    ensures
        entries_have(s.push(e), a) == (entries_have(s, a) || a == e.account),
        free_of(s.push(e), a) == if a == e.account { e.free } else { free_of(s, a) },
        reserved_of(s.push(e), a) == if a == e.account { e.reserved } else { reserved_of(s, a) },
    decreases s.len(),
{
    let t = s.push(e);
    if s.len() == 0 {
        assert(t[0] == e);
        assert(t.drop_first() =~= Seq::<BalanceEntry>::empty());
        assert(!entries_have(t.drop_first(), a));
        assert(free_of(t.drop_first(), a) == 0);
        assert(reserved_of(t.drop_first(), a) == 0);
    } else {
        assert(t[0] == s[0]);
        assert(t.drop_first() =~= s.drop_first().push(e));
        assert(t.drop_first() == s.drop_first().push(e));
        lemma_push(s.drop_first(), e, a);
        assert(entries_have(t, a) == (t[0].account == a || entries_have(t.drop_first(), a)));
        assert(free_of(t, a) == if t[0].account == a { t[0].free } else { free_of(t.drop_first(), a) });
        assert(reserved_of(t, a) == if t[0].account == a { t[0].reserved } else {
            reserved_of(t.drop_first(), a)
        });
    }
}

/// The fund custodian's book of accounts.
pub struct Custodian {
    pub entries: Vec<BalanceEntry>,
}

impl Custodian {
    /// Well-formedness: one entry per account, and each account's total
    /// holdings fit the balance type.
    pub open spec fn wf(self) -> bool {
        &&& entries_distinct(self.entries@)
        &&& forall|i: int| 0 <= i < self.entries@.len()
            ==> (#[trigger] self.entries@[i]).free + self.entries@[i].reserved <= Balance::MAX
    }

    /// Free balance of `a`.
    pub open spec fn free(self, a: AccountId) -> Balance {
        free_of(self.entries@, a)
    }

    /// Reserved balance of `a`.
    pub open spec fn reserved(self, a: AccountId) -> Balance {
        reserved_of(self.entries@, a)
    }

    /// All accounts other than `a` hold in `self` what they hold in `other`.
    pub open spec fn same_but(self, other: Custodian, a: AccountId) -> bool {
        &&& forall|x: AccountId| #![trigger self.free(x)] x != a ==> self.free(x) == other.free(x)
        &&& forall|x: AccountId| #![trigger self.reserved(x)]
            x != a ==> self.reserved(x) == other.reserved(x)
    }

    /// An empty book: every account holds nothing.
    pub fn new() -> (r: Custodian)
        ensures
            r.wf(),
            forall|a: AccountId| #![trigger r.free(a)] r.free(a) == 0,
            forall|a: AccountId| #![trigger r.reserved(a)] r.reserved(a) == 0,
    {
        Custodian { entries: Vec::new() }
    }

    /// Index of `a`'s entry, if any; any earlier index holds another account.
    fn find(&self, a: AccountId) -> (r: Option<usize>)
        ensures
            match r {
                Some(i) => i < self.entries@.len() && self.entries@[i as int].account == a
                    && entries_have(self.entries@, a)
                    && self.free(a) == self.entries@[i as int].free
                    && self.reserved(a) == self.entries@[i as int].reserved,
                None => !entries_have(self.entries@, a),
            },
    {
        let mut i: usize = 0;
        while i < self.entries.len()
            invariant
                i <= self.entries@.len(),
                forall|j: int| 0 <= j < i ==> self.entries@[j].account != a,
            decreases self.entries@.len() - i,
        {
            if self.entries[i].account == a {
                proof {
                    lemma_first_match(self.entries@, a, i as int);
                }
                return Some(i);
            }
            i += 1;
        }
        proof {
            lemma_have_iff_index(self.entries@, a);
        }
        None
    }

    /// Free balance of `a`.
    pub fn free_balance(&self, a: AccountId) -> (r: Balance)
        ensures
            r == self.free(a),
    {
        match self.find(a) {
            Some(i) => self.entries[i].free,
            None => {
                proof {
                    lemma_absent_zero(self.entries@, a);
                }
                0
            },
        }
    }

    /// Reserved balance of `a`.
    pub fn reserved_balance(&self, a: AccountId) -> (r: Balance)
        ensures
            r == self.reserved(a),
    {
        match self.find(a) {
            Some(i) => self.entries[i].reserved,
            None => {
                proof {
                    lemma_absent_zero(self.entries@, a);
                }
                0
            },
        }
    }

    /// Credit `amount` to `a`'s free balance.
    pub fn deposit(&mut self, a: AccountId, amount: Balance)
        requires
            old(self).wf(),
            old(self).free(a) + old(self).reserved(a) + amount <= Balance::MAX,
        ensures
            final(self).wf(),
            final(self).free(a) == old(self).free(a) + amount,
            final(self).reserved(a) == old(self).reserved(a),
            final(self).same_but(*old(self), a),
    {
        match self.find(a) {
            Some(i) => {
                let e = self.entries[i];
                self.entries[i] = BalanceEntry { free: e.free + amount, ..e };
                proof {
                    lemma_update_all(old(self).entries@, i as int,
                        BalanceEntry { free: (e.free + amount) as Balance, ..e });
                }
            },
            None => {
                proof {
                    lemma_absent_zero(self.entries@, a);
                }
                self.entries.push(BalanceEntry { account: a, free: amount, reserved: 0 });
                proof {
                    lemma_push_all(old(self).entries@,
                        BalanceEntry { account: a, free: amount, reserved: 0 });
                    lemma_have_iff_index(old(self).entries@, a);
                }
            },
        }
    }

    /// Move `amount` of `a`'s free balance into reservation.
    pub fn reserve(&mut self, a: AccountId, amount: Balance)
        requires
            old(self).wf(),
            old(self).free(a) >= amount,
        ensures
            final(self).wf(),
            final(self).free(a) == old(self).free(a) - amount,
            final(self).reserved(a) == old(self).reserved(a) + amount,
            final(self).same_but(*old(self), a),
    {
        match self.find(a) {
            Some(i) => {
                let e = self.entries[i];
                self.entries[i] = BalanceEntry {
                    free: e.free - amount,
                    reserved: e.reserved + amount,
                    ..e
                };
                proof {
                    lemma_update_all(old(self).entries@, i as int,
                        BalanceEntry {
                            free: (e.free - amount) as Balance,
                            reserved: (e.reserved + amount) as Balance,
                            ..e
                        });
                }
            },
            None => {
                proof {
                    lemma_absent_zero(self.entries@, a);
                }
            },
        }
    }

    /// Release up to `amount` of `a`'s reservation back to its free
    /// balance; returns how much actually moved (the custodian releases
    /// at most what is reserved).
    pub fn unreserve(&mut self, a: AccountId, amount: Balance) -> (moved: Balance)
        requires
            old(self).wf(),
        ensures
            final(self).wf(),
            moved == if old(self).reserved(a) < amount { old(self).reserved(a) } else { amount },
            final(self).free(a) == old(self).free(a) + moved,
            final(self).reserved(a) == old(self).reserved(a) - moved,
            final(self).same_but(*old(self), a),
    {
        match self.find(a) {
            Some(i) => {
                let e = self.entries[i];
                let moved = if e.reserved < amount { e.reserved } else { amount };
                self.entries[i] = BalanceEntry {
                    free: e.free + moved,
                    reserved: e.reserved - moved,
                    ..e
                };
                proof {
                    lemma_update_all(old(self).entries@, i as int,
                        BalanceEntry {
                            free: (e.free + moved) as Balance,
                            reserved: (e.reserved - moved) as Balance,
                            ..e
                        });
                }
                moved
            },
            None => {
                proof {
                    lemma_absent_zero(self.entries@, a);
                }
                0
            },
        }
    }

    /// Settle `amount` of `from`'s reservation into `to`'s free balance,
    /// all or nothing: it succeeds exactly when the reservation covers the
    /// amount and the recipient can hold it.
    pub fn transfer_reserved(&mut self, from: AccountId, to: AccountId, amount: Balance)
        -> (r: Result<(), ()>)
        requires
            old(self).wf(),
            from != to,
        ensures
            final(self).wf(),
            r.is_ok() == (old(self).reserved(from) >= amount
                && old(self).free(to) + old(self).reserved(to) + amount <= Balance::MAX),
            r.is_ok() ==> {
                &&& final(self).reserved(from) == old(self).reserved(from) - amount
                &&& final(self).free(from) == old(self).free(from)
                &&& final(self).free(to) == old(self).free(to) + amount
                &&& final(self).reserved(to) == old(self).reserved(to)
                &&& forall|x: AccountId| #![trigger final(self).free(x)]
                    x != from && x != to ==> final(self).free(x) == old(self).free(x)
                &&& forall|x: AccountId| #![trigger final(self).reserved(x)]
                    x != from && x != to ==> final(self).reserved(x) == old(self).reserved(x)
            },
            r.is_err() ==> *final(self) == *old(self),
    {
        let from_reserved = self.reserved_balance(from);
        if from_reserved < amount {
            return Err(());
        }
        let to_free = self.free_balance(to);
        let to_reserved = self.reserved_balance(to);
        if amount > Balance::MAX - to_free || to_free + amount > Balance::MAX - to_reserved {
            return Err(());
        }
        match self.find(from) {
            Some(i) => {
                let e = self.entries[i];
                self.entries[i] = BalanceEntry { reserved: e.reserved - amount, ..e };
                proof {
                    lemma_update_all(old(self).entries@, i as int,
                        BalanceEntry { reserved: (e.reserved - amount) as Balance, ..e });
                    assert(self.reserved(from) == old(self).reserved(from) - amount);
                }
            },
            None => {
                proof {
                    lemma_absent_zero(self.entries@, from);
                }
            },
        }
        let ghost mid = *self;
        self.deposit(to, amount);
        proof {
            assert(self.same_but(mid, to));
            assert(self.free(from) == mid.free(from));
            assert(self.reserved(from) == mid.reserved(from));
            assert forall|x: AccountId| #![trigger self.free(x)]
                x != from && x != to implies self.free(x) == old(self).free(x) by {
                assert(self.free(x) == mid.free(x));
                assert(mid.free(x) == old(self).free(x));
            }
            assert forall|x: AccountId| #![trigger self.reserved(x)]
                x != from && x != to implies self.reserved(x) == old(self).reserved(x) by {
                assert(self.free(x) == mid.free(x));
                assert(self.reserved(x) == mid.reserved(x));
                assert(mid.reserved(x) == old(self).reserved(x));
            }
        }
        Ok(())
    }

    /// Burn `amount` from `a`'s free balance; fails without effect when the
    /// free balance does not cover it.
    pub fn withdraw(&mut self, a: AccountId, amount: Balance) -> (r: Result<(), ()>)
        requires
            old(self).wf(),
        ensures
            final(self).wf(),
            r.is_ok() == (old(self).free(a) >= amount),
            r.is_ok() ==> {
                &&& final(self).free(a) == old(self).free(a) - amount
                &&& final(self).reserved(a) == old(self).reserved(a)
                &&& final(self).same_but(*old(self), a)
            },
            r.is_err() ==> *final(self) == *old(self),
    {
        match self.find(a) {
            Some(i) => {
                let e = self.entries[i];
                if e.free < amount {
                    return Err(());
                }
                self.entries[i] = BalanceEntry { free: e.free - amount, ..e };
                proof {
                    lemma_update_all(old(self).entries@, i as int,
                        BalanceEntry { free: (e.free - amount) as Balance, ..e });
                }
                Ok(())
            },
            None => {
                proof {
                    lemma_absent_zero(self.entries@, a);
                }
                if amount == 0 {
                    Ok(())
                } else {
                    Err(())
                }
            },
        }
    }
}

/// `lemma_update` for every account at once.
pub proof fn lemma_update_all(s: Seq<BalanceEntry>, i: int, e: BalanceEntry)
    requires
        entries_distinct(s),
        0 <= i < s.len(),
        e.account == s[i].account,
    ensures
        entries_distinct(s.update(i, e)),
        forall|a: AccountId| #![trigger entries_have(s.update(i, e), a)]
            entries_have(s.update(i, e), a) == entries_have(s, a),
        forall|a: AccountId| #![trigger free_of(s.update(i, e), a)]
            free_of(s.update(i, e), a) == if a == e.account { e.free } else { free_of(s, a) },
        forall|a: AccountId| #![trigger reserved_of(s.update(i, e), a)]
            reserved_of(s.update(i, e), a)
                == if a == e.account { e.reserved } else { reserved_of(s, a) },
{
    assert forall|a: AccountId| #![trigger entries_have(s.update(i, e), a)]
        entries_have(s.update(i, e), a) == entries_have(s, a) by {
        lemma_update(s, i, e, a);
    }
    assert forall|a: AccountId| #![trigger free_of(s.update(i, e), a)]
        free_of(s.update(i, e), a) == (if a == e.account { e.free } else { free_of(s, a) }) by {
        lemma_update(s, i, e, a);
    }
    assert forall|a: AccountId| #![trigger reserved_of(s.update(i, e), a)]
        reserved_of(s.update(i, e), a)
            == (if a == e.account { e.reserved } else { reserved_of(s, a) }) by {
        lemma_update(s, i, e, a);
    }
    lemma_update(s, i, e, e.account);
}

/// `lemma_push` for every account at once.
pub proof fn lemma_push_all(s: Seq<BalanceEntry>, e: BalanceEntry)
    requires
        !entries_have(s, e.account),
    ensures
        forall|a: AccountId| #![trigger entries_have(s.push(e), a)]
            entries_have(s.push(e), a) == (entries_have(s, a) || a == e.account),
        forall|a: AccountId| #![trigger free_of(s.push(e), a)]
            free_of(s.push(e), a) == if a == e.account { e.free } else { free_of(s, a) },
        forall|a: AccountId| #![trigger reserved_of(s.push(e), a)]
            reserved_of(s.push(e), a) == if a == e.account { e.reserved } else { reserved_of(s, a) },
        entries_distinct(s) ==> entries_distinct(s.push(e)),
{
    assert forall|a: AccountId| #![trigger entries_have(s.push(e), a)]
        entries_have(s.push(e), a) == (entries_have(s, a) || a == e.account) by {
        lemma_push(s, e, a);
    }
    assert forall|a: AccountId| #![trigger free_of(s.push(e), a)]
        free_of(s.push(e), a) == (if a == e.account { e.free } else { free_of(s, a) }) by {
        lemma_push(s, e, a);
    }
    assert forall|a: AccountId| #![trigger reserved_of(s.push(e), a)]
        reserved_of(s.push(e), a)
            == (if a == e.account { e.reserved } else { reserved_of(s, a) }) by {
        lemma_push(s, e, a);
    }
    if entries_distinct(s) {
        lemma_have_iff_index(s, e.account);
        assert forall|i: int, j: int| 0 <= i < j < s.push(e).len()
            implies s.push(e)[i].account != s.push(e)[j].account by {
            if j == s.len() {
                assert(s[i].account != e.account);
            }
        }
    }
}

} // verus!
