//! Per-government history index: an append-only list of the payment
//! identifiers each government initiated. Statistics are derived from it
//! on demand, never persisted, so they always agree with the ledger.

use vstd::prelude::*;
use crate::types::AccountId;

verus! {

/// One government's history: the identifiers of the payments it initiated,
/// in initiation order.
pub struct HistoryEntry {
    pub account: AccountId,
    pub payment_ids: Vec<u64>,
}

/// Whether `a` has a history entry.
pub open spec fn history_has(s: Seq<HistoryEntry>, a: AccountId) -> bool
    decreases s.len(),
{
    if s.len() == 0 {
        false
    } else if s[0].account == a {
        true
    } else {
        history_has(s.drop_first(), a)
    }
}

/// The payment identifiers recorded for `a`; empty when `a` has no entry.
pub open spec fn history_of(s: Seq<HistoryEntry>, a: AccountId) -> Seq<u64>
    decreases s.len(),
{
    if s.len() == 0 {
        Seq::empty()
    } else if s[0].account == a {
        s[0].payment_ids@
    } else {
        history_of(s.drop_first(), a)
    }
}

/// No account owns two history entries.
pub open spec fn history_accounts_distinct(s: Seq<HistoryEntry>) -> bool {
    forall|i: int, j: int| 0 <= i < j < s.len() ==> s[i].account != s[j].account
}

/// An entry exists for `a` exactly when some index holds it.
pub proof fn lemma_history_iff_index(s: Seq<HistoryEntry>, a: AccountId)
    ensures
        history_has(s, a) <==> exists|i: int| 0 <= i < s.len() && s[i].account == a,
    decreases s.len(),
{
    if s.len() > 0 {
        lemma_history_iff_index(s.drop_first(), a);
        if s[0].account == a {
        } else if history_has(s.drop_first(), a) {
            let i = choose|i: int| 0 <= i < s.drop_first().len() && s.drop_first()[i].account == a;
            assert(s[i + 1].account == a);
        } else if exists|i: int| 0 <= i < s.len() && s[i].account == a {
            let i = choose|i: int| 0 <= i < s.len() && s[i].account == a;
            assert(s.drop_first()[i - 1].account == a);
        }
    }
}

/// An account without an entry has an empty history.
pub proof fn lemma_history_absent_empty(s: Seq<HistoryEntry>, a: AccountId)
    requires
        !history_has(s, a),
    ensures
        history_of(s, a) == Seq::<u64>::empty(),
    decreases s.len(),
{
    if s.len() > 0 {
        lemma_history_absent_empty(s.drop_first(), a);
    }
}

/// The entry at the first index holding `a` decides `a`'s history.
pub proof fn lemma_history_first_match(s: Seq<HistoryEntry>, a: AccountId, i: int)
    requires
        0 <= i < s.len(),
        s[i].account == a,
        forall|j: int| 0 <= j < i ==> s[j].account != a,
    ensures
        history_has(s, a),
        history_of(s, a) == s[i].payment_ids@,
    decreases i,
{
    if i > 0 {
        lemma_history_first_match(s.drop_first(), a, i - 1);
    }
}

/// Replacing the entry at `i` (keeping its account) changes only that
/// account's history.
pub proof fn lemma_history_update(s: Seq<HistoryEntry>, i: int, e: HistoryEntry, a: AccountId)
    requires
        history_accounts_distinct(s),
        0 <= i < s.len(),
        e.account == s[i].account,
    ensures
        history_accounts_distinct(s.update(i, e)),
        history_has(s.update(i, e), a) == history_has(s, a),
        history_of(s.update(i, e), a)
            == if a == e.account { e.payment_ids@ } else { history_of(s, a) },
    decreases s.len(),
{
    let t = s.update(i, e);
    if i == 0 {
        assert(t.drop_first() =~= s.drop_first());
    } else {
        assert(t[0] == s[0]);
        assert(t.drop_first() =~= s.drop_first().update(i - 1, e));
        lemma_history_update(s.drop_first(), i - 1, e, a);
    }
}

/// Appending an entry for a fresh account changes only that account's
/// history.
pub proof fn lemma_history_push(s: Seq<HistoryEntry>, e: HistoryEntry, a: AccountId)
    requires
        !history_has(s, e.account),
    ensures
        history_has(s.push(e), a) == (history_has(s, a) || a == e.account),
        history_of(s.push(e), a) == if a == e.account { e.payment_ids@ } else { history_of(s, a) },
    decreases s.len(),
{
    let t = s.push(e);
    if s.len() == 0 {
        assert(t[0] == e);
        assert(t.drop_first() =~= Seq::<HistoryEntry>::empty());
        assert(!history_has(t.drop_first(), a));
        assert(history_of(t.drop_first(), a) == Seq::<u64>::empty());
    } else {
        assert(t[0] == s[0]);
        assert(t.drop_first() =~= s.drop_first().push(e));
        assert(t.drop_first() == s.drop_first().push(e));
        lemma_history_push(s.drop_first(), e, a);
    }
}

/// The per-government history index.
pub struct History {
    pub entries: Vec<HistoryEntry>,
}

impl History {
    /// Well-formedness: one entry per account.
    pub open spec fn wf(self) -> bool {
        history_accounts_distinct(self.entries@)
    }

    /// Whether `a` ever initiated a payment.
    pub open spec fn has(self, a: AccountId) -> bool {
        history_has(self.entries@, a)
    }

    /// The payment identifiers `a` initiated, in order.
    pub open spec fn of(self, a: AccountId) -> Seq<u64> {
        history_of(self.entries@, a)
    }

    /// An empty index.
    pub fn new() -> (r: History)
        ensures
            r.wf(),
            forall|a: AccountId| #![trigger r.has(a)] !r.has(a),
            forall|a: AccountId| #![trigger r.of(a)] r.of(a) == Seq::<u64>::empty(),
    {
        History { entries: Vec::new() }
    }

    /// Index of `a`'s entry, if any; earlier indices hold other accounts.
    fn find(&self, a: AccountId) -> (r: Option<usize>)
        ensures
            match r {
                Some(i) => i < self.entries@.len() && self.entries@[i as int].account == a
                    && self.has(a) && self.of(a) == self.entries@[i as int].payment_ids@,
                None => !self.has(a),
            },
    {
        let mut i: usize = 0;
        while i < self.entries.len()
            invariant
                i <= self.entries@.len(),
                forall|j: int| 0 <= j < i ==> self.entries@[j].account != a,
            decreases self.entries@.len() - i,
        {
            if self.entries[i].account == a {
                proof {
                    lemma_history_first_match(self.entries@, a, i as int);
                }
                return Some(i);
            }
            i += 1;
        }
        proof {
            lemma_history_iff_index(self.entries@, a);
        }
        None
    }

    /// The identifiers recorded for `a`, if `a` has an entry.
    pub fn get(&self, a: AccountId) -> (r: Option<&Vec<u64>>)
        ensures
            match r {
                Some(ids) => self.has(a) && ids@ == self.of(a),
                None => !self.has(a),
            },
    {
        match self.find(a) {
            Some(i) => Some(&self.entries[i].payment_ids),
            None => None,
        }
    }

    /// Record that `a` initiated the payment `id`: appended to `a`'s
    /// history, every other history untouched.
    pub fn record(&mut self, a: AccountId, id: u64)
        requires
            old(self).wf(),
        ensures
            final(self).wf(),
            final(self).of(a) == old(self).of(a).push(id),
            final(self).has(a),
            forall|x: AccountId| #![trigger final(self).of(x)]
                x != a ==> final(self).of(x) == old(self).of(x),
            forall|x: AccountId| #![trigger final(self).has(x)]
                x != a ==> final(self).has(x) == old(self).has(x),
    {
        match self.find(a) {
            Some(i) => {
                let entry = &mut self.entries[i];
                entry.payment_ids.push(id);
                proof {
                    let t = self.entries@[i as int];
                    assert(t.account == a);
                    assert forall|x: AccountId| #![trigger history_of(self.entries@, x)]
                        history_of(self.entries@, x)
                            == (if x == a { old(self).of(a).push(id) } else { old(self).of(x) }) by {
                        lemma_history_update(old(self).entries@, i as int, t, x);
                    }
                    assert forall|x: AccountId| #![trigger history_has(self.entries@, x)]
                        history_has(self.entries@, x) == old(self).has(x) by {
                        lemma_history_update(old(self).entries@, i as int, t, x);
                    }
                }
            },
            None => {
                proof {
                    lemma_history_absent_empty(self.entries@, a);
                }
                let mut ids: Vec<u64> = Vec::new();
                ids.push(id);
                let ghost e_ids = ids@;
                self.entries.push(HistoryEntry { account: a, payment_ids: ids });
                proof {
                    assert(self.entries@.last().account == a);
                    assert(old(self).of(a).push(id) =~= e_ids);
                    assert forall|x: AccountId| #![trigger history_of(self.entries@, x)]
                        history_of(self.entries@, x)
                            == (if x == a { old(self).of(a).push(id) } else { old(self).of(x) }) by {
                        lemma_history_push(old(self).entries@, self.entries@.last(), x);
                    }
                    assert forall|x: AccountId| #![trigger history_has(self.entries@, x)]
                        history_has(self.entries@, x) == (old(self).has(x) || x == a) by {
                        lemma_history_push(old(self).entries@, self.entries@.last(), x);
                    }
                    lemma_history_iff_index(old(self).entries@, a);
                    assert forall|i: int, j: int| 0 <= i < j < self.entries@.len()
                        implies self.entries@[i].account != self.entries@[j].account by {
                        if j == self.entries@.len() - 1 {
                            assert(old(self).entries@[i].account != a);
                        }
                    }
                }
            },
        }
    }
}

} // verus!
