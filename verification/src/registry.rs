//! Government registry: the authoritative record of verified governments,
//! keyed by account, with a derived country-code index.
//!
//! At most one record exists per account and per country code, every
//! record's signature threshold is positive, and records are never
//! deleted; only the administrator mutates a record's status.

use vstd::prelude::*;
use crate::types::{bytes_eq, AccountId, GovernmentInfo, GovernmentStatus};

verus! {

/// A registered government: its account handle and its record.
pub struct GovernmentEntry {
    pub account: AccountId,
    pub info: GovernmentInfo,
}

/// Record registered under `a`, if any.
pub open spec fn gov_of(s: Seq<GovernmentEntry>, a: AccountId) -> Option<GovernmentInfo>
    decreases s.len(),
{
    if s.len() == 0 {
        None
    } else if s[0].account == a {
        Some(s[0].info)
    } else {
        gov_of(s.drop_first(), a)
    }
}

/// Account registered under country code `code`, if any.
pub open spec fn account_for_code(s: Seq<GovernmentEntry>, code: Seq<u8>) -> Option<AccountId>
    decreases s.len(),
{
    if s.len() == 0 {
        None
    } else if s[0].info.country_code@ == code {
        Some(s[0].account)
    } else {
        account_for_code(s.drop_first(), code)
    }
}

/// No account owns two records.
pub open spec fn gov_accounts_distinct(s: Seq<GovernmentEntry>) -> bool {
    forall|i: int, j: int| 0 <= i < j < s.len() ==> s[i].account != s[j].account
}

/// No country code names two records.
pub open spec fn gov_codes_distinct(s: Seq<GovernmentEntry>) -> bool {
    forall|i: int, j: int| 0 <= i < j < s.len()
        ==> s[i].info.country_code@ != s[j].info.country_code@
}

/// Every record's signature threshold is positive.
pub open spec fn gov_thresholds_positive(s: Seq<GovernmentEntry>) -> bool {
    forall|i: int| 0 <= i < s.len() ==> (#[trigger] s[i].info).signature_threshold > 0
}

/// A record exists for `a` exactly when some index holds it.
pub proof fn lemma_gov_iff_index(s: Seq<GovernmentEntry>, a: AccountId)
    ensures
        gov_of(s, a).is_some() <==> exists|i: int| 0 <= i < s.len() && s[i].account == a,
    decreases s.len(),
{
    if s.len() > 0 {
        lemma_gov_iff_index(s.drop_first(), a);
        if s[0].account == a {
        } else if gov_of(s.drop_first(), a).is_some() {
            let i = choose|i: int| 0 <= i < s.drop_first().len() && s.drop_first()[i].account == a;
            assert(s[i + 1].account == a);
        } else if exists|i: int| 0 <= i < s.len() && s[i].account == a {
            let i = choose|i: int| 0 <= i < s.len() && s[i].account == a;
            assert(s.drop_first()[i - 1].account == a);
        }
    }
}

/// A record exists for `code` exactly when some index holds it.
pub proof fn lemma_code_iff_index(s: Seq<GovernmentEntry>, code: Seq<u8>)
    ensures
        account_for_code(s, code).is_some()
            <==> exists|i: int| 0 <= i < s.len() && s[i].info.country_code@ == code,
    decreases s.len(),
{
    if s.len() > 0 {
        lemma_code_iff_index(s.drop_first(), code);
        if s[0].info.country_code@ == code {
        } else if account_for_code(s.drop_first(), code).is_some() {
            let i = choose|i: int|
                0 <= i < s.drop_first().len() && s.drop_first()[i].info.country_code@ == code;
            assert(s[i + 1].info.country_code@ == code);
        } else if exists|i: int| 0 <= i < s.len() && s[i].info.country_code@ == code {
            let i = choose|i: int| 0 <= i < s.len() && s[i].info.country_code@ == code;
            assert(s.drop_first()[i - 1].info.country_code@ == code);
        }
    }
}

/// The entry at the first index holding `a` decides `a`'s record.
pub proof fn lemma_gov_first_match(s: Seq<GovernmentEntry>, a: AccountId, i: int)
    requires
        0 <= i < s.len(),
        s[i].account == a,
        forall|j: int| 0 <= j < i ==> s[j].account != a,
    ensures
        gov_of(s, a) == Some(s[i].info),
    decreases i,
{
    if i > 0 {
        lemma_gov_first_match(s.drop_first(), a, i - 1);
    }
}

/// Replacing the record at `i`, keeping its account and country code,
/// changes no other account's record and no code assignment.
pub proof fn lemma_gov_update(s: Seq<GovernmentEntry>, i: int, e: GovernmentEntry, a: AccountId, c: Seq<u8>)
    requires
        gov_accounts_distinct(s),
        0 <= i < s.len(),
        e.account == s[i].account,
        e.info.country_code@ == s[i].info.country_code@,
    ensures
        gov_of(s.update(i, e), a) == if a == e.account { Some(e.info) } else { gov_of(s, a) },
        account_for_code(s.update(i, e), c) == account_for_code(s, c),
    decreases s.len(),
{
    let t = s.update(i, e);
    if i == 0 {
        assert(t.drop_first() =~= s.drop_first());
    } else {
        assert(t[0] == s[0]);
        assert(t.drop_first() =~= s.drop_first().update(i - 1, e));
        lemma_gov_update(s.drop_first(), i - 1, e, a, c);
    }
}

/// `lemma_gov_update` for every account and code at once.
pub proof fn lemma_gov_update_all(s: Seq<GovernmentEntry>, i: int, e: GovernmentEntry)
    requires
        gov_accounts_distinct(s),
        0 <= i < s.len(),
        e.account == s[i].account,
        e.info.country_code@ == s[i].info.country_code@,
    ensures
        gov_accounts_distinct(s.update(i, e)),
        gov_codes_distinct(s) ==> gov_codes_distinct(s.update(i, e)),
        forall|a: AccountId| #![trigger gov_of(s.update(i, e), a)]
            gov_of(s.update(i, e), a) == if a == e.account { Some(e.info) } else { gov_of(s, a) },
        forall|c: Seq<u8>| #![trigger account_for_code(s.update(i, e), c)]
            account_for_code(s.update(i, e), c) == account_for_code(s, c),
{
    assert forall|a: AccountId| #![trigger gov_of(s.update(i, e), a)]
        gov_of(s.update(i, e), a) == (if a == e.account { Some(e.info) } else { gov_of(s, a) }) by {
        lemma_gov_update(s, i, e, a, Seq::<u8>::empty());
    }
    assert forall|c: Seq<u8>| #![trigger account_for_code(s.update(i, e), c)]
        account_for_code(s.update(i, e), c) == account_for_code(s, c) by {
        lemma_gov_update(s, i, e, e.account, c);
    }
}

/// Appending a record for a fresh account and code changes no other
/// account's record and no other code's assignment.
pub proof fn lemma_gov_push(s: Seq<GovernmentEntry>, e: GovernmentEntry, a: AccountId, c: Seq<u8>)
    requires
        gov_of(s, e.account).is_none(),
        account_for_code(s, e.info.country_code@).is_none(),
    ensures
        gov_of(s.push(e), a) == if a == e.account { Some(e.info) } else { gov_of(s, a) },
        account_for_code(s.push(e), c)
            == if c == e.info.country_code@ { Some(e.account) } else { account_for_code(s, c) },
    decreases s.len(),
{
    let t = s.push(e);
    if s.len() == 0 {
        assert(t[0] == e);
        assert(t.drop_first() =~= Seq::<GovernmentEntry>::empty());
        assert(gov_of(t.drop_first(), a) is None);
        assert(account_for_code(t.drop_first(), c) is None);
    } else {
        assert(t[0] == s[0]);
        assert(t.drop_first() =~= s.drop_first().push(e));
        assert(t.drop_first() == s.drop_first().push(e));
        lemma_gov_push(s.drop_first(), e, a, c);
    }
}

/// `lemma_gov_push` for every account and code at once.
pub proof fn lemma_gov_push_all(s: Seq<GovernmentEntry>, e: GovernmentEntry)
    requires
        gov_of(s, e.account).is_none(),
        account_for_code(s, e.info.country_code@).is_none(),
    ensures
        forall|a: AccountId| #![trigger gov_of(s.push(e), a)]
            gov_of(s.push(e), a) == if a == e.account { Some(e.info) } else { gov_of(s, a) },
        forall|c: Seq<u8>| #![trigger account_for_code(s.push(e), c)]
            account_for_code(s.push(e), c)
                == if c == e.info.country_code@ { Some(e.account) } else { account_for_code(s, c) },
        gov_accounts_distinct(s) ==> gov_accounts_distinct(s.push(e)),
        gov_codes_distinct(s) ==> gov_codes_distinct(s.push(e)),
        gov_thresholds_positive(s) && e.info.signature_threshold > 0
            ==> gov_thresholds_positive(s.push(e)),
{
    assert forall|a: AccountId| #![trigger gov_of(s.push(e), a)]
        gov_of(s.push(e), a) == (if a == e.account { Some(e.info) } else { gov_of(s, a) }) by {
        lemma_gov_push(s, e, a, Seq::<u8>::empty());
    }
    assert forall|c: Seq<u8>| #![trigger account_for_code(s.push(e), c)]
        account_for_code(s.push(e), c)
            == (if c == e.info.country_code@ { Some(e.account) } else { account_for_code(s, c) }) by {
        lemma_gov_push(s, e, e.account, c);
    }
    if gov_accounts_distinct(s) {
        lemma_gov_iff_index(s, e.account);
        assert forall|i: int, j: int| 0 <= i < j < s.push(e).len()
            implies s.push(e)[i].account != s.push(e)[j].account by {
            if j == s.len() {
                assert(s[i].account != e.account);
            }
        }
    }
    if gov_codes_distinct(s) {
        lemma_code_iff_index(s, e.info.country_code@);
        assert forall|i: int, j: int| 0 <= i < j < s.push(e).len()
            implies s.push(e)[i].info.country_code@ != s.push(e)[j].info.country_code@ by {
            if j == s.len() {
                assert(s[i].info.country_code@ != e.info.country_code@);
            }
        }
    }
    if gov_thresholds_positive(s) && e.info.signature_threshold > 0 {
        assert forall|i: int| 0 <= i < s.push(e).len()
            implies (#[trigger] s.push(e)[i].info).signature_threshold > 0 by {
            if i < s.len() {
                assert(s[i].info.signature_threshold > 0);
            }
        }
    }
}

/// The registry of verified governments.
pub struct Registry {
    pub entries: Vec<GovernmentEntry>,
}

impl Registry {
    /// Well-formedness: one record per account and per country code, and
    /// every threshold positive.
    pub open spec fn wf(self) -> bool {
        &&& gov_accounts_distinct(self.entries@)
        &&& gov_codes_distinct(self.entries@)
        &&& gov_thresholds_positive(self.entries@)
    }

    /// Record registered under `a`, if any.
    pub open spec fn gov(self, a: AccountId) -> Option<GovernmentInfo> {
        gov_of(self.entries@, a)
    }

    /// Account registered under country code `c`, if any.
    pub open spec fn by_code(self, c: Seq<u8>) -> Option<AccountId> {
        account_for_code(self.entries@, c)
    }

    /// An empty registry.
    pub fn new() -> (r: Registry)
        ensures
            r.wf(),
            forall|a: AccountId| #![trigger r.gov(a)] r.gov(a) is None,
            forall|c: Seq<u8>| #![trigger r.by_code(c)] r.by_code(c) is None,
    {
        Registry { entries: Vec::new() }
    }

    /// Index of `a`'s record, if any; earlier indices hold other accounts.
    fn find(&self, a: AccountId) -> (r: Option<usize>)
        ensures
            match r {
                Some(i) => i < self.entries@.len() && self.entries@[i as int].account == a
                    && self.gov(a) == Some(self.entries@[i as int].info),
                None => self.gov(a) is None,
            },
    {
        let mut i: usize = 0;
        while i < self.entries.len()
            invariant
                i <= self.entries@.len(),
                forall|j: int| 0 <= j < i ==> self.entries@[j].account != a,
            decreases self.entries@.len() - i,
        {
            if self.entries[i].account == a {
                proof {
                    lemma_gov_first_match(self.entries@, a, i as int);
                }
                return Some(i);
            }
            i += 1;
        }
        proof {
            lemma_gov_iff_index(self.entries@, a);
        }
        None
    }

    /// Record registered under `a`, if any.
    pub fn get(&self, a: AccountId) -> (r: Option<&GovernmentInfo>)
        ensures
            match r {
                Some(g) => self.gov(a) == Some(*g),
                None => self.gov(a) is None,
            },
    {
        match self.find(a) {
            Some(i) => Some(&self.entries[i].info),
            None => None,
        }
    }

    /// Account registered under country code `code`, if any.
    pub fn account_by_code(&self, code: &Vec<u8>) -> (r: Option<AccountId>)
        ensures
            r == self.by_code(code@),
    {
        let mut i: usize = 0;
        while i < self.entries.len()
            invariant
                i <= self.entries@.len(),
                forall|j: int| 0 <= j < i ==> self.entries@[j].info.country_code@ != code@,
            decreases self.entries@.len() - i,
        {
            if bytes_eq(&self.entries[i].info.country_code, code) {
                proof {
                    lemma_code_first_match(self.entries@, code@, i as int);
                }
                return Some(self.entries[i].account);
            }
            i += 1;
        }
        proof {
            lemma_code_iff_index(self.entries@, code@);
        }
        None
    }

    /// Create the record for a fresh account and country code.
    pub fn insert(&mut self, account: AccountId, info: GovernmentInfo)
        requires
            old(self).wf(),
            old(self).gov(account) is None,
            old(self).by_code(info.country_code@) is None,
            info.signature_threshold > 0,
        ensures
            final(self).wf(),
            forall|a: AccountId| #![trigger final(self).gov(a)]
                final(self).gov(a) == if a == account { Some(info) } else { old(self).gov(a) },
            forall|c: Seq<u8>| #![trigger final(self).by_code(c)]
                final(self).by_code(c)
                    == if c == info.country_code@ { Some(account) } else { old(self).by_code(c) },
    {
        let ghost e = GovernmentEntry { account, info };
        self.entries.push(GovernmentEntry { account, info });
        proof {
            lemma_gov_push_all(old(self).entries@, e);
        }
    }

    /// Overwrite the status of `a`'s record; everything else is kept.
    pub fn set_status(&mut self, a: AccountId, new_status: GovernmentStatus)
        requires
            old(self).wf(),
            old(self).gov(a).is_some(),
        ensures
            final(self).wf(),
            forall|x: AccountId| #![trigger final(self).gov(x)]
                final(self).gov(x) == if x == a {
                    Some(GovernmentInfo { status: new_status, ..old(self).gov(a)->Some_0 })
                } else {
                    old(self).gov(x)
                },
            forall|c: Seq<u8>| #![trigger final(self).by_code(c)]
                final(self).by_code(c) == old(self).by_code(c),
    {
        proof {
            lemma_gov_iff_index(self.entries@, a);
        }
        match self.find(a) {
            Some(i) => {
                let entry = &mut self.entries[i];
                entry.info.status = new_status;
                proof {
                    lemma_gov_update_all(old(self).entries@, i as int, self.entries@[i as int]);
                    assert(self.entries@[i as int].info
                        == GovernmentInfo { status: new_status, ..old(self).gov(a)->Some_0 });
                }
            },
            None => {
                proof {
                    assert(false);
                }
            },
        }
    }
}

/// The entry at the first index holding `code` decides the code's account.
pub proof fn lemma_code_first_match(s: Seq<GovernmentEntry>, code: Seq<u8>, i: int)
    requires
        0 <= i < s.len(),
        s[i].info.country_code@ == code,
        forall|j: int| 0 <= j < i ==> s[j].info.country_code@ != code,
    ensures
        account_for_code(s, code) == Some(s[i].account),
    decreases i,
{
    if i > 0 {
        lemma_code_first_match(s.drop_first(), code, i - 1);
    }
}

} // verus!
