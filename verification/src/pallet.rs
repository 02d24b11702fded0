//! The payment ledger: government registry, multi-signature payment state
//! machine, fund reservation and settlement, and history bookkeeping.
//!
//! One design quirk is preserved deliberately: the required signer set is
//! snapshotted when a payment is initiated, but the signature threshold is
//! read live from the sender's record at each signing. A threshold lowered
//! after initiation can therefore authorize a payment with fewer
//! signatures than were required at creation. Whether that is intentional
//! policy is an open question; it is kept, not fixed.

use vstd::prelude::*;
use crate::types::{
    contains_account, copy_vec, find_signer, has_signer, is_terminal, payment_cost,
    saturating_add_balance, signers_distinct, signers_required, AccountId, Balance, Config, Error,
    Event, GovernmentInfo, GovernmentStatus, InstitutionType, InterCountryPayment, Origin,
    PaymentPurpose, PaymentStatus,
};
use crate::custodian::Custodian;
use crate::registry::Registry;
use crate::history::History;
use crate::sums::{
    lemma_fold_step, lemma_outstanding_bound, lemma_outstanding_nonneg, lemma_outstanding_push,
    lemma_outstanding_update, lookup_payment, outstanding_cost, outstanding_total, total_received,
    total_sent,
};

verus! {

/// The complete ledger state.
pub struct Pallet {
    pub config: Config,
    pub registry: Registry,
    pub custodian: Custodian,
    /// All payments ever created, in initiation order; index `i` holds the
    /// payment with identifier `base_payment_id + i`. Records are never
    /// deleted.
    pub payments: Vec<InterCountryPayment>,
    pub history: History,
    /// Identifier the next payment will receive.
    pub next_id: u64,
    /// Total amount moved by completed payments, saturating.
    pub total_volume: Balance,
    /// Every notification emitted so far, oldest first.
    pub events: Vec<Event>,
}

impl Pallet {
    /// The fixed per-payment fee.
    pub open spec fn fee(self) -> Balance {
        self.config.transaction_fee
    }

    /// The identifier of the first payment.
    pub open spec fn base(self) -> u64 {
        self.config.base_payment_id
    }

    /// Payment with identifier `id`, if any.
    pub open spec fn payment(self, id: u64) -> Option<InterCountryPayment> {
        lookup_payment(self.payments@, self.base(), id)
    }

    /// Record of the government registered under `a`, if any.
    pub open spec fn government(self, a: AccountId) -> Option<GovernmentInfo> {
        self.registry.gov(a)
    }

    /// Free balance of `a`.
    pub open spec fn free(self, a: AccountId) -> Balance {
        self.custodian.free(a)
    }

    /// Reserved balance of `a`.
    pub open spec fn reserved(self, a: AccountId) -> Balance {
        self.custodian.reserved(a)
    }

    /// Structural soundness of one payment record: distinct parties, a
    /// positive amount, collected signers unique and drawn from the
    /// required set, and a sender that is (and stays) registered.
    pub open spec fn payment_wf(self, p: InterCountryPayment) -> bool {
        &&& p.from_government != p.to_government
        &&& p.amount > 0
        &&& signers_distinct(p.signatures@)
        &&& signers_required(p.signatures@, p.required_signatures@)
        &&& self.government(p.from_government).is_some()
    }

    /// Well-formedness of the whole ledger. Holds after construction and
    /// is preserved by every operation:
    /// identifiers are dense from the base and never reused; every record
    /// is structurally sound; and each account's reserved balance covers
    /// the amount-plus-fee of all its pending and authorized payments.
    pub open spec fn wf(self) -> bool {
        &&& self.registry.wf()
        &&& self.custodian.wf()
        &&& self.history.wf()
        &&& self.next_id == self.base() + self.payments@.len()
        &&& forall|i: int| #![trigger self.payments@[i]]
            0 <= i < self.payments@.len()
                ==> self.payments@[i].payment_id == self.base() + i
                    && self.payment_wf(self.payments@[i])
        &&& forall|a: AccountId| #![trigger self.custodian.reserved(a)]
            outstanding_total(self.payments@, a, self.fee()) <= self.custodian.reserved(a)
    }

    /// No operation ever changes a payment that reached a terminal state.
    pub open spec fn preserves_terminal(pre: Pallet, post: Pallet) -> bool {
        forall|id: u64| #![trigger post.payment(id)]
            (pre.payment(id) matches Some(p) && is_terminal(p.status))
                ==> post.payment(id) == pre.payment(id)
    }

    /// A fresh ledger with the given configuration: no governments, no
    /// payments, no balances, no history, no events.
    pub fn new(config: Config) -> (r: Pallet)
        ensures
            r.wf(),
            r.config == config,
            forall|a: AccountId| #![trigger r.registry.gov(a)] r.government(a) is None,
            forall|c: Seq<u8>| #![trigger r.registry.by_code(c)] r.registry.by_code(c) is None,
            r.payments@ == Seq::<InterCountryPayment>::empty(),
            forall|id: u64| #![trigger r.payment(id)] r.payment(id) is None,
            forall|a: AccountId| #![trigger r.history.has(a)] !r.history.has(a),
            forall|a: AccountId| #![trigger r.custodian.free(a)] r.free(a) == 0,
            forall|a: AccountId| #![trigger r.custodian.reserved(a)] r.reserved(a) == 0,
            r.next_id == config.base_payment_id,
            r.total_volume == 0,
            r.events@ == Seq::<Event>::empty(),
    {
        let r = Pallet {
            config,
            registry: Registry::new(),
            custodian: Custodian::new(),
            payments: Vec::new(),
            history: History::new(),
            next_id: config.base_payment_id,
            total_volume: 0,
            events: Vec::new(),
        };
        proof {
            assert forall|a: AccountId| #![trigger r.custodian.reserved(a)]
                outstanding_total(r.payments@, a, r.fee()) <= r.custodian.reserved(a) by {
                lemma_outstanding_nonneg(r.payments@, a, r.fee());
                assert(outstanding_total(r.payments@, a, r.fee()) == 0);
            }
        }
        r
    }

    /// Record of the government registered under `account`, if any.
    pub fn government_info(&self, account: AccountId) -> (r: Option<&GovernmentInfo>)
        ensures
            match r {
                Some(g) => self.government(account) == Some(*g),
                None => self.government(account) is None,
            },
    {
        self.registry.get(account)
    }

    /// Account registered under `country_code`, if any.
    pub fn country_to_account(&self, country_code: &Vec<u8>) -> (r: Option<AccountId>)
        ensures
            r == self.registry.by_code(country_code@),
    {
        self.registry.account_by_code(country_code)
    }

    /// Payment with identifier `id`, if any.
    pub fn payment_info(&self, id: u64) -> (r: Option<&InterCountryPayment>)
        ensures
            match r {
                Some(p) => self.payment(id) == Some(*p),
                None => self.payment(id) is None,
            },
    {
        match self.find_payment(id) {
            Some(i) => Some(&self.payments[i]),
            None => None,
        }
    }

    /// Index into the payment table for identifier `id`, if in range.
    fn find_payment(&self, id: u64) -> (r: Option<usize>)
        ensures
            match r {
                Some(i) => i < self.payments@.len()
                    && self.payment(id) == Some(self.payments@[i as int])
                    && i as int == id - self.base(),
                None => self.payment(id) is None,
            },
    {
        if id < self.config.base_payment_id {
            return None;
        }
        let offset = id - self.config.base_payment_id;
        if offset < self.payments.len() as u64 {
            Some(offset as usize)
        } else {
            None
        }
    }

    /// The identifier the next initiated payment will receive.
    pub fn next_payment_id(&self) -> (r: u64)
        ensures
            r == self.next_id,
    {
        self.next_id
    }

    /// Total amount moved by completed payments.
    pub fn total_payments_volume(&self) -> (r: Balance)
        ensures
            r == self.total_volume,
    {
        self.total_volume
    }

    /// Identifiers of the payments `account` initiated, if it ever did.
    pub fn government_payment_history(&self, account: AccountId) -> (r: Option<&Vec<u64>>)
        ensures
            match r {
                Some(ids) => self.history.has(account) && ids@ == self.history.of(account),
                None => !self.history.has(account),
            },
    {
        self.history.get(account)
    }

    /// Free balance of `account`.
    pub fn free_balance(&self, account: AccountId) -> (r: Balance)
        ensures
            r == self.free(account),
    {
        self.custodian.free_balance(account)
    }

    /// Reserved balance of `account`.
    pub fn reserved_balance(&self, account: AccountId) -> (r: Balance)
        ensures
            r == self.reserved(account),
    {
        self.custodian.reserved_balance(account)
    }

    /// Every notification emitted so far, oldest first.
    pub fn event_log(&self) -> (r: &Vec<Event>)
        ensures
            r@ == self.events@,
    {
        &self.events
    }

    /// Credit `amount` to `account`'s free balance. This stands in for
    /// value entering the system from outside the ledger.
    pub fn deposit(&mut self, account: AccountId, amount: Balance)
        requires
            old(self).wf(),
            old(self).free(account) + old(self).reserved(account) + amount <= Balance::MAX,
        ensures
            final(self).wf(),
            final(self).free(account) == old(self).free(account) + amount,
            final(self).reserved(account) == old(self).reserved(account),
            forall|x: AccountId| #![trigger final(self).custodian.free(x)]
                x != account ==> final(self).free(x) == old(self).free(x),
            forall|x: AccountId| #![trigger final(self).custodian.reserved(x)]
                x != account ==> final(self).reserved(x) == old(self).reserved(x),
            final(self).registry == old(self).registry,
            final(self).payments@ == old(self).payments@,
            forall|id: u64| #![trigger final(self).payment(id)]
                final(self).payment(id) == old(self).payment(id),
            final(self).history == old(self).history,
            final(self).next_id == old(self).next_id,
            final(self).total_volume == old(self).total_volume,
            final(self).events@ == old(self).events@,
            final(self).config == old(self).config,
    {
        self.custodian.deposit(account, amount);
        proof {
            assert forall|a: AccountId| #![trigger self.custodian.reserved(a)]
                outstanding_total(self.payments@, a, self.fee()) <= self.custodian.reserved(a) by {
                assert(self.custodian.reserved(a) == old(self).custodian.reserved(a));
                assert(outstanding_total(old(self).payments@, a, old(self).fee())
                    <= old(self).custodian.reserved(a));
            }
        }
    }

    /// Whether `register_government` succeeds, and with which error it
    /// fails otherwise, decided over the pre-state.
    pub open spec fn register_check(
        self,
        origin: Origin,
        account: AccountId,
        country_code: Seq<u8>,
        signature_threshold: u32,
    ) -> Result<(), Error> {
        if origin != Origin::Root {
            Err(Error::NotAuthorized)
        } else if country_code.len() > self.config.max_country_code_len {
            Err(Error::CountryCodeTooLong)
        } else if signature_threshold == 0 {
            Err(Error::InvalidSignatureThreshold)
        } else if self.government(account).is_some() {
            Err(Error::GovernmentAlreadyRegistered)
        } else if self.registry.by_code(country_code).is_some() {
            Err(Error::GovernmentAlreadyRegistered)
        } else {
            Ok(())
        }
    }

    /// Register a government entity. Administrative: only the root origin
    /// may call it. At most one record may exist per account and per
    /// country code; a second registration of either fails.
    pub fn register_government(
        &mut self,
        origin: Origin,
        account: AccountId,
        country_code: Vec<u8>,
        government_name: Vec<u8>,
        institution_type: InstitutionType,
        signature_threshold: u32,
        authorized_signatories: Vec<AccountId>,
    ) -> (r: Result<(), Error>)
        requires
            old(self).wf(),
        ensures
            final(self).wf(),
            r == old(self).register_check(origin, account, country_code@, signature_threshold),
            r.is_err() ==> *final(self) == *old(self),
            r.is_ok() ==> {
                &&& final(self).government(account) matches Some(g)
                    && g.country_code@ == country_code@
                    && g.government_name@ == government_name@
                    && g.institution_type == institution_type
                    && g.status == GovernmentStatus::Active
                    && g.signature_threshold == signature_threshold
                    && g.authorized_signatories@ == authorized_signatories@
                    && g.registered_at == 0
                &&& forall|x: AccountId| #![trigger final(self).registry.gov(x)]
                    x != account ==> final(self).government(x) == old(self).government(x)
                &&& forall|c: Seq<u8>| #![trigger final(self).registry.by_code(c)]
                    final(self).registry.by_code(c)
                        == if c == country_code@ { Some(account) } else { old(self).registry.by_code(c) }
                &&& final(self).events@.len() == old(self).events@.len() + 1
                &&& final(self).events@.drop_last() == old(self).events@
                &&& final(self).events@.last() matches Event::GovernmentRegistered {
                        account: ev_account, country_code: ev_code, institution_type: ev_kind }
                    && ev_account == account
                    && ev_code@ == country_code@
                    && ev_kind == institution_type
            },
            final(self).custodian == old(self).custodian,
            final(self).payments@ == old(self).payments@,
            forall|id: u64| #![trigger final(self).payment(id)]
                final(self).payment(id) == old(self).payment(id),
            final(self).history == old(self).history,
            final(self).next_id == old(self).next_id,
            final(self).total_volume == old(self).total_volume,
            final(self).config == old(self).config,
            Pallet::preserves_terminal(*old(self), *final(self)),
    {
        if !matches!(origin, Origin::Root) {
            return Err(Error::NotAuthorized);
        }
        if country_code.len() > self.config.max_country_code_len {
            return Err(Error::CountryCodeTooLong);
        }
        if signature_threshold == 0 {
            return Err(Error::InvalidSignatureThreshold);
        }
        if matches!(self.registry.get(account), Some(_)) {
            return Err(Error::GovernmentAlreadyRegistered);
        }
        if matches!(self.registry.account_by_code(&country_code), Some(_)) {
            return Err(Error::GovernmentAlreadyRegistered);
        }
        let event_code = copy_vec(&country_code);
        let info = GovernmentInfo {
            country_code,
            government_name,
            institution_type,
            status: GovernmentStatus::Active,
            signature_threshold,
            authorized_signatories,
            registered_at: current_timestamp(),
        };
        self.registry.insert(account, info);
        self.events.push(Event::GovernmentRegistered {
            account,
            country_code: event_code,
            institution_type,
        });
        proof {
            assert(self.payments@ == old(self).payments@);
            assert forall|i: int| #![trigger self.payments@[i]]
                0 <= i < self.payments@.len()
                    implies self.payments@[i].payment_id == self.base() + i
                        && self.payment_wf(self.payments@[i]) by {
                assert(old(self).payment_wf(old(self).payments@[i]));
                assert(self.government(self.payments@[i].from_government).is_some());
            }
            assert forall|a: AccountId| #![trigger self.custodian.reserved(a)]
                outstanding_total(self.payments@, a, self.fee()) <= self.custodian.reserved(a) by {
                assert(outstanding_total(old(self).payments@, a, old(self).fee())
                    <= old(self).custodian.reserved(a));
            }
        }
        Ok(())
    }

    /// Whether `update_government_status` succeeds, and with which error
    /// it fails otherwise.
    pub open spec fn update_status_check(self, origin: Origin, government: AccountId)
        -> Result<(), Error> {
        if origin != Origin::Root {
            Err(Error::NotAuthorized)
        } else if self.government(government) is None {
            Err(Error::GovernmentNotFound)
        } else {
            Ok(())
        }
    }

    /// Overwrite a government's status. Administrative: only the root
    /// origin may call it. Any status may be set to any other; the rest
    /// of the record is kept.
    pub fn update_government_status(
        &mut self,
        origin: Origin,
        government: AccountId,
        new_status: GovernmentStatus,
    ) -> (r: Result<(), Error>)
        requires
            old(self).wf(),
        ensures
            final(self).wf(),
            r == old(self).update_status_check(origin, government),
            r.is_err() ==> *final(self) == *old(self),
            r.is_ok() ==> {
                &&& final(self).government(government)
                    == Some(GovernmentInfo {
                        status: new_status,
                        ..old(self).government(government)->Some_0
                    })
                &&& forall|x: AccountId| #![trigger final(self).registry.gov(x)]
                    x != government ==> final(self).government(x) == old(self).government(x)
                &&& forall|c: Seq<u8>| #![trigger final(self).registry.by_code(c)]
                    final(self).registry.by_code(c) == old(self).registry.by_code(c)
                &&& final(self).events@ == old(self).events@.push(
                    Event::GovernmentStatusUpdated { account: government, status: new_status })
            },
            final(self).custodian == old(self).custodian,
            final(self).payments@ == old(self).payments@,
            forall|id: u64| #![trigger final(self).payment(id)]
                final(self).payment(id) == old(self).payment(id),
            final(self).history == old(self).history,
            final(self).next_id == old(self).next_id,
            final(self).total_volume == old(self).total_volume,
            final(self).config == old(self).config,
            Pallet::preserves_terminal(*old(self), *final(self)),
    {
        if !matches!(origin, Origin::Root) {
            return Err(Error::NotAuthorized);
        }
        if matches!(self.registry.get(government), None) {
            return Err(Error::GovernmentNotFound);
        }
        self.registry.set_status(government, new_status);
        self.events.push(Event::GovernmentStatusUpdated { account: government, status: new_status });
        proof {
            assert forall|i: int| #![trigger self.payments@[i]]
                0 <= i < self.payments@.len()
                    implies self.payments@[i].payment_id == self.base() + i
                        && self.payment_wf(self.payments@[i]) by {
                assert(old(self).payment_wf(old(self).payments@[i]));
                assert(self.government(self.payments@[i].from_government).is_some());
            }
            assert forall|a: AccountId| #![trigger self.custodian.reserved(a)]
                outstanding_total(self.payments@, a, self.fee()) <= self.custodian.reserved(a) by {
                assert(outstanding_total(old(self).payments@, a, old(self).fee())
                    <= old(self).custodian.reserved(a));
            }
        }
        Ok(())
    }
    /// Whether `initiate_payment` succeeds, and with which error it fails
    /// otherwise, decided over the pre-state.
    pub open spec fn initiate_check(
        self,
        origin: Origin,
        to_government: AccountId,
        amount: Balance,
        reference: Seq<u8>,
    ) -> Result<(), Error> {
        match origin {
            Origin::Root => Err(Error::NotAuthorized),
            Origin::Signed(who) => {
                if amount == 0 {
                    Err(Error::ZeroAmount)
                } else if who == to_government {
                    Err(Error::SelfPayment)
                } else if reference.len() > self.config.max_reference_len {
                    Err(Error::ReferenceTooLong)
                } else if self.government(who) is None {
                    Err(Error::GovernmentNotFound)
                } else if self.government(to_government) is None {
                    Err(Error::GovernmentNotFound)
                } else if self.government(who)->Some_0.status != GovernmentStatus::Active {
                    Err(Error::GovernmentNotActive)
                } else if self.government(to_government)->Some_0.status != GovernmentStatus::Active {
                    Err(Error::GovernmentNotActive)
                } else if self.free(who) < payment_cost(amount, self.fee()) {
                    Err(Error::InsufficientBalance)
                } else {
                    Ok(())
                }
            },
        }
    }

    /// Initiate a payment from the signing government to `to_government`.
    /// On success: amount plus fee is reserved with the custodian, a
    /// pending record is created under the next identifier with the
    /// sender's current signer set snapshotted as its requirement, the
    /// identifier is appended to the sender's history, and an initiation
    /// notification is emitted. On failure nothing changes.
    pub fn initiate_payment(
        &mut self,
        origin: Origin,
        to_government: AccountId,
        amount: Balance,
        purpose: PaymentPurpose,
        reference: Vec<u8>,
    ) -> (r: Result<u64, Error>)
        requires
            old(self).wf(),
            old(self).next_id < u64::MAX,
        ensures
            final(self).wf(),
            r matches Err(e) ==> Err::<(), Error>(e)
                == old(self).initiate_check(origin, to_government, amount, reference@),
            r.is_err() ==> *final(self) == *old(self),
            r.is_ok() == old(self).initiate_check(origin, to_government, amount, reference@).is_ok(),
            r.is_ok() ==> r == Ok::<u64, Error>(old(self).next_id),
            r.is_ok() ==> {
                let who = origin->Signed_0;
                let cost = payment_cost(amount, old(self).fee());
                &&& final(self).payments@.len() == old(self).payments@.len() + 1
                &&& final(self).payments@.drop_last() == old(self).payments@
                &&& final(self).payment(old(self).next_id) == Some(final(self).payments@.last())
                &&& final(self).payments@.last().payment_id == old(self).next_id
                &&& final(self).payments@.last().from_government == who
                &&& final(self).payments@.last().to_government == to_government
                &&& final(self).payments@.last().amount == amount
                &&& final(self).payments@.last().purpose == purpose
                &&& final(self).payments@.last().reference == reference
                &&& final(self).payments@.last().required_signatures@
                    == old(self).government(who)->Some_0.authorized_signatories@
                &&& final(self).payments@.last().signatures@.len() == 0
                &&& final(self).payments@.last().timestamp == 0
                &&& final(self).payments@.last().status == PaymentStatus::Pending
                &&& final(self).next_id == old(self).next_id + 1
                &&& final(self).free(who) == old(self).free(who) - cost
                &&& final(self).reserved(who) == old(self).reserved(who) + cost
                &&& forall|x: AccountId| #![trigger final(self).custodian.free(x)]
                    x != who ==> final(self).free(x) == old(self).free(x)
                &&& forall|x: AccountId| #![trigger final(self).custodian.reserved(x)]
                    x != who ==> final(self).reserved(x) == old(self).reserved(x)
                &&& final(self).history.of(who) == old(self).history.of(who).push(old(self).next_id)
                &&& forall|x: AccountId| #![trigger final(self).history.of(x)]
                    x != who ==> final(self).history.of(x) == old(self).history.of(x)
                &&& forall|x: AccountId| #![trigger final(self).history.has(x)]
                    x != who ==> final(self).history.has(x) == old(self).history.has(x)
                &&& final(self).events@ == old(self).events@.push(Event::PaymentInitiated {
                        payment_id: old(self).next_id,
                        from_government: who,
                        to_government,
                        amount,
                    })
            },
            forall|id: u64| #![trigger final(self).payment(id)]
                id != old(self).next_id ==> final(self).payment(id) == old(self).payment(id),
            final(self).registry == old(self).registry,
            final(self).total_volume == old(self).total_volume,
            final(self).config == old(self).config,
            Pallet::preserves_terminal(*old(self), *final(self)),
    {
        let who = match origin {
            Origin::Signed(w) => w,
            Origin::Root => {
                return Err(Error::NotAuthorized);
            },
        };
        if amount == 0 {
            return Err(Error::ZeroAmount);
        }
        if who == to_government {
            return Err(Error::SelfPayment);
        }
        if reference.len() > self.config.max_reference_len {
            return Err(Error::ReferenceTooLong);
        }
        let (from_status, required) = match self.registry.get(who) {
            None => {
                return Err(Error::GovernmentNotFound);
            },
            Some(g) => (g.status, copy_vec(&g.authorized_signatories)),
        };
        let to_status = match self.registry.get(to_government) {
            None => {
                return Err(Error::GovernmentNotFound);
            },
            Some(g) => g.status,
        };
        if !matches!(from_status, GovernmentStatus::Active) {
            return Err(Error::GovernmentNotActive);
        }
        if !matches!(to_status, GovernmentStatus::Active) {
            return Err(Error::GovernmentNotActive);
        }
        let total_cost = saturating_add_balance(amount, self.config.transaction_fee);
        let balance = self.custodian.free_balance(who);
        if balance < total_cost {
            return Err(Error::InsufficientBalance);
        }
        self.custodian.reserve(who, total_cost);
        let payment_id = self.next_id;
        let payment = InterCountryPayment {
            payment_id,
            from_government: who,
            to_government,
            amount,
            purpose,
            reference,
            required_signatures: required,
            signatures: Vec::new(),
            timestamp: current_timestamp(),
            status: PaymentStatus::Pending,
        };
        let ghost new_payment = payment;
        self.payments.push(payment);
        self.next_id = payment_id + 1;
        self.history.record(who, payment_id);
        self.events.push(Event::PaymentInitiated {
            payment_id,
            from_government: who,
            to_government,
            amount,
        });
        proof {
            let fee = self.fee();
            assert(self.payments@ == old(self).payments@.push(new_payment));
            assert(self.payments@.drop_last() =~= old(self).payments@);
            assert forall|i: int| #![trigger self.payments@[i]]
                0 <= i < self.payments@.len()
                    implies self.payments@[i].payment_id == self.base() + i
                        && self.payment_wf(self.payments@[i]) by {
                if i < old(self).payments@.len() {
                    assert(self.payments@[i] == old(self).payments@[i]);
                    assert(old(self).payment_wf(old(self).payments@[i]));
                } else {
                    assert(self.payments@[i] == new_payment);
                }
            }
            assert forall|a: AccountId| #![trigger self.custodian.reserved(a)]
                outstanding_total(self.payments@, a, fee) <= self.custodian.reserved(a) by {
                lemma_outstanding_push(old(self).payments@, new_payment, a, fee);
                assert(outstanding_total(old(self).payments@, a, fee)
                    <= old(self).custodian.reserved(a));
                if a == who {
                    assert(outstanding_cost(new_payment, a, fee)
                        == payment_cost(amount, fee) as int);
                } else {
                    assert(outstanding_cost(new_payment, a, fee) == 0);
                    assert(self.custodian.reserved(a) == old(self).custodian.reserved(a));
                }
            }
            assert forall|id: u64| #![trigger self.payment(id)]
                id != old(self).next_id implies self.payment(id) == old(self).payment(id) by {
                if self.base() <= id && id - self.base() < old(self).payments@.len() {
                    assert(self.payments@[id - self.base()] == old(self).payments@[id - self.base()]);
                }
            }
            assert(self.payment(old(self).next_id) == Some(new_payment));
        }
        Ok(payment_id)
    }
    /// Whether `sign_payment` succeeds, and with which error it fails
    /// otherwise, decided over the pre-state.
    pub open spec fn sign_check(self, origin: Origin, payment_id: u64) -> Result<(), Error> {
        match origin {
            Origin::Root => Err(Error::NotAuthorized),
            Origin::Signed(who) => match self.payment(payment_id) {
                None => Err(Error::PaymentNotFound),
                Some(p) => {
                    if p.status != PaymentStatus::Pending {
                        Err(Error::PaymentNotPending)
                    } else if !p.required_signatures@.contains(who) {
                        Err(Error::NotAuthorizedSigner)
                    } else if has_signer(p.signatures@, who) {
                        Err(Error::SignatureAlreadyProvided)
                    } else {
                        Ok(())
                    }
                },
            },
        }
    }

    /// Attach the signing government's attestation to a pending payment.
    /// The sender's threshold is read live, not snapshotted: the payment
    /// becomes authorized exactly when the collected count, including this
    /// signature, reaches the sender's current threshold.
    pub fn sign_payment(&mut self, origin: Origin, payment_id: u64, signature: Vec<u8>)
        -> (r: Result<(), Error>)
        requires
            old(self).wf(),
        ensures
            final(self).wf(),
            r == old(self).sign_check(origin, payment_id),
            r.is_err() ==> *final(self) == *old(self),
            r.is_ok() ==> {
                let who = origin->Signed_0;
                let p = old(self).payment(payment_id)->Some_0;
                let threshold = old(self).government(p.from_government)->Some_0.signature_threshold;
                let q = final(self).payment(payment_id)->Some_0;
                &&& final(self).payment(payment_id).is_some()
                &&& q.signatures@ == p.signatures@.push((who, signature))
                &&& (q.status == PaymentStatus::Authorized
                    <==> p.signatures@.len() + 1 >= threshold)
                &&& (q.status == PaymentStatus::Authorized || q.status == PaymentStatus::Pending)
                &&& q.payment_id == p.payment_id
                &&& q.from_government == p.from_government
                &&& q.to_government == p.to_government
                &&& q.amount == p.amount
                &&& q.purpose == p.purpose
                &&& q.reference == p.reference
                &&& q.required_signatures == p.required_signatures
                &&& q.timestamp == p.timestamp
                &&& (if q.status == PaymentStatus::Authorized {
                        final(self).events@ == old(self).events@
                            .push(Event::PaymentAuthorized { payment_id })
                            .push(Event::PaymentSignatureAdded { payment_id, signer: who })
                    } else {
                        final(self).events@ == old(self).events@
                            .push(Event::PaymentSignatureAdded { payment_id, signer: who })
                    })
            },
            forall|id: u64| #![trigger final(self).payment(id)]
                id != payment_id ==> final(self).payment(id) == old(self).payment(id),
            final(self).registry == old(self).registry,
            final(self).custodian == old(self).custodian,
            final(self).history == old(self).history,
            final(self).next_id == old(self).next_id,
            final(self).total_volume == old(self).total_volume,
            final(self).config == old(self).config,
            Pallet::preserves_terminal(*old(self), *final(self)),
    {
        let who = match origin {
            Origin::Signed(w) => w,
            Origin::Root => {
                return Err(Error::NotAuthorized);
            },
        };
        let idx = match self.find_payment(payment_id) {
            None => {
                return Err(Error::PaymentNotFound);
            },
            Some(i) => i,
        };
        let from_government = {
            let p = &self.payments[idx];
            if !matches!(p.status, PaymentStatus::Pending) {
                return Err(Error::PaymentNotPending);
            }
            if !contains_account(&p.required_signatures, who) {
                return Err(Error::NotAuthorizedSigner);
            }
            if find_signer(&p.signatures, who) {
                return Err(Error::SignatureAlreadyProvided);
            }
            p.from_government
        };
        proof {
            assert(self.payment_wf(self.payments@[idx as int]));
        }
        let threshold = match self.registry.get(from_government) {
            None => {
                return Err(Error::GovernmentNotFound);
            },
            Some(g) => g.signature_threshold,
        };
        let ghost p_old = self.payments@[idx as int];
        let authorized = {
            let p = &mut self.payments[idx];
            p.signatures.push((who, signature));
            let authorized = p.signatures.len() >= threshold as usize;
            if authorized {
                p.status = PaymentStatus::Authorized;
            }
            authorized
        };
        if authorized {
            self.events.push(Event::PaymentAuthorized { payment_id });
        }
        self.events.push(Event::PaymentSignatureAdded { payment_id, signer: who });
        proof {
            let fee = self.fee();
            let p_new = self.payments@[idx as int];
            assert(self.payments@ == old(self).payments@.update(idx as int, p_new));
            assert(p_new.signatures@ == p_old.signatures@.push((who, signature)));
            assert forall|i: int| #![trigger self.payments@[i]]
                0 <= i < self.payments@.len()
                    implies self.payments@[i].payment_id == self.base() + i
                        && self.payment_wf(self.payments@[i]) by {
                assert(old(self).payment_wf(old(self).payments@[i]));
                if i == idx as int {
                    assert(signers_distinct(p_new.signatures@)) by {
                        assert forall|m: int, n: int| 0 <= m < n < p_new.signatures@.len()
                            implies p_new.signatures@[m].0 != p_new.signatures@[n].0 by {
                            if n == p_new.signatures@.len() - 1 {
                                assert(!has_signer(p_old.signatures@, who));
                                assert(p_old.signatures@[m].0 != who);
                            } else {
                                assert(p_old.signatures@[m].0 != p_old.signatures@[n].0);
                            }
                        }
                    }
                    assert(signers_required(p_new.signatures@, p_new.required_signatures@)) by {
                        assert forall|m: int| 0 <= m < p_new.signatures@.len()
                            implies p_new.required_signatures@.contains(
                                #[trigger] p_new.signatures@[m].0) by {
                            if m < p_old.signatures@.len() {
                                assert(p_old.required_signatures@.contains(p_old.signatures@[m].0));
                            }
                        }
                    }
                } else {
                    assert(self.payments@[i] == old(self).payments@[i]);
                }
            }
            assert forall|a: AccountId| #![trigger self.custodian.reserved(a)]
                outstanding_total(self.payments@, a, fee) <= self.custodian.reserved(a) by {
                lemma_outstanding_update(old(self).payments@, idx as int, p_new, a, fee);
                assert(outstanding_cost(p_new, a, fee) == outstanding_cost(p_old, a, fee));
                assert(outstanding_total(old(self).payments@, a, fee)
                    <= old(self).custodian.reserved(a));
            }
            assert forall|id: u64| #![trigger self.payment(id)]
                id != payment_id implies self.payment(id) == old(self).payment(id) by {
                if self.base() <= id && id - self.base() < self.payments@.len() {
                    assert(self.payments@[id - self.base()]
                        == old(self).payments@[id - self.base()]);
                }
            }
            assert(self.payment(payment_id) == Some(p_new));
        }
        Ok(())
    }
    /// Whether `cancel_payment` succeeds, and with which error it fails
    /// otherwise, decided over the pre-state.
    pub open spec fn cancel_check(self, origin: Origin, payment_id: u64) -> Result<(), Error> {
        match origin {
            Origin::Root => Err(Error::NotAuthorized),
            Origin::Signed(who) => match self.payment(payment_id) {
                None => Err(Error::PaymentNotFound),
                Some(p) => {
                    if p.status != PaymentStatus::Pending {
                        Err(Error::PaymentNotPending)
                    } else if p.from_government != who {
                        Err(Error::NotAuthorizedSigner)
                    } else {
                        Ok(())
                    }
                },
            },
        }
    }

    /// Cancel a still-pending payment. Only the initiating government may
    /// cancel; the full reservation (amount plus fee) returns to its free
    /// balance, the record becomes `Cancelled` and a cancellation
    /// notification carries the free-form reason.
    pub fn cancel_payment(&mut self, origin: Origin, payment_id: u64, reason: Vec<u8>)
        -> (r: Result<(), Error>)
        requires
            old(self).wf(),
        ensures
            final(self).wf(),
            r == old(self).cancel_check(origin, payment_id),
            r.is_err() ==> *final(self) == *old(self),
            r.is_ok() ==> {
                let who = origin->Signed_0;
                let p = old(self).payment(payment_id)->Some_0;
                let cost = payment_cost(p.amount, old(self).fee());
                let q = final(self).payment(payment_id)->Some_0;
                &&& final(self).payment(payment_id).is_some()
                &&& q == InterCountryPayment { status: PaymentStatus::Cancelled, ..p }
                &&& final(self).free(who) == old(self).free(who) + cost
                &&& final(self).reserved(who) == old(self).reserved(who) - cost
                &&& forall|x: AccountId| #![trigger final(self).custodian.free(x)]
                    x != who ==> final(self).free(x) == old(self).free(x)
                &&& forall|x: AccountId| #![trigger final(self).custodian.reserved(x)]
                    x != who ==> final(self).reserved(x) == old(self).reserved(x)
                &&& final(self).events@ == old(self).events@.push(
                    Event::PaymentCancelled { payment_id, reason })
            },
            forall|id: u64| #![trigger final(self).payment(id)]
                id != payment_id ==> final(self).payment(id) == old(self).payment(id),
            final(self).registry == old(self).registry,
            final(self).history == old(self).history,
            final(self).next_id == old(self).next_id,
            final(self).total_volume == old(self).total_volume,
            final(self).config == old(self).config,
            Pallet::preserves_terminal(*old(self), *final(self)),
    {
        let who = match origin {
            Origin::Signed(w) => w,
            Origin::Root => {
                return Err(Error::NotAuthorized);
            },
        };
        let idx = match self.find_payment(payment_id) {
            None => {
                return Err(Error::PaymentNotFound);
            },
            Some(i) => i,
        };
        let (amount, from_government) = {
            let p = &self.payments[idx];
            if !matches!(p.status, PaymentStatus::Pending) {
                return Err(Error::PaymentNotPending);
            }
            if p.from_government != who {
                return Err(Error::NotAuthorizedSigner);
            }
            (p.amount, p.from_government)
        };
        let ghost p_old = self.payments@[idx as int];
        proof {
            assert(self.payment_wf(p_old));
            lemma_outstanding_bound(self.payments@, who, self.fee(), idx as int);
            assert(outstanding_cost(p_old, who, self.fee())
                == payment_cost(p_old.amount, self.fee()) as int);
        }
        let total_reserved = saturating_add_balance(amount, self.config.transaction_fee);
        let moved = self.custodian.unreserve(who, total_reserved);
        proof {
            assert(old(self).custodian.reserved(who) >= total_reserved);
            assert(moved == total_reserved);
        }
        {
            let p = &mut self.payments[idx];
            p.status = PaymentStatus::Cancelled;
        }
        self.events.push(Event::PaymentCancelled { payment_id, reason });
        proof {
            let fee = self.fee();
            let p_new = self.payments@[idx as int];
            assert(self.payments@ == old(self).payments@.update(idx as int, p_new));
            assert(p_new == InterCountryPayment { status: PaymentStatus::Cancelled, ..p_old });
            assert forall|i: int| #![trigger self.payments@[i]]
                0 <= i < self.payments@.len()
                    implies self.payments@[i].payment_id == self.base() + i
                        && self.payment_wf(self.payments@[i]) by {
                assert(old(self).payment_wf(old(self).payments@[i]));
                if i != idx as int {
                    assert(self.payments@[i] == old(self).payments@[i]);
                }
            }
            assert forall|a: AccountId| #![trigger self.custodian.reserved(a)]
                outstanding_total(self.payments@, a, fee) <= self.custodian.reserved(a) by {
                lemma_outstanding_update(old(self).payments@, idx as int, p_new, a, fee);
                assert(outstanding_total(old(self).payments@, a, fee)
                    <= old(self).custodian.reserved(a));
                if a == who {
                    assert(outstanding_cost(p_old, a, fee)
                        == payment_cost(p_old.amount, fee) as int);
                    assert(outstanding_cost(p_new, a, fee) == 0);
                } else {
                    assert(outstanding_cost(p_old, a, fee) == 0);
                    assert(outstanding_cost(p_new, a, fee) == 0);
                    assert(self.custodian.reserved(a) == old(self).custodian.reserved(a));
                }
            }
            assert forall|id: u64| #![trigger self.payment(id)]
                id != payment_id implies self.payment(id) == old(self).payment(id) by {
                if self.base() <= id && id - self.base() < self.payments@.len() {
                    assert(self.payments@[id - self.base()]
                        == old(self).payments@[id - self.base()]);
                }
            }
            assert(self.payment(payment_id) == Some(p_new));
        }
        Ok(())
    }
    /// Whether the recipient of `p` can hold the settled amount: the
    /// custodian's deposit would not overflow its holdings.
    pub open spec fn transfer_fits(self, p: InterCountryPayment) -> bool {
        self.free(p.to_government) + self.reserved(p.to_government) + p.amount <= Balance::MAX
    }

    /// How much of the fee the custodian can release from the sender's
    /// reservation once the amount has been settled.
    pub open spec fn fee_moved(self, p: InterCountryPayment) -> int {
        if self.reserved(p.from_government) - p.amount < self.fee() {
            self.reserved(p.from_government) - p.amount
        } else {
            self.fee() as int
        }
    }

    /// Whether the sender's free balance, after the releasable part of the
    /// fee returns to it, covers the fee burn.
    pub open spec fn fee_covered(self, p: InterCountryPayment) -> bool {
        self.free(p.from_government) + self.fee_moved(p) >= self.fee()
    }

    /// Whether `execute_payment` succeeds, and with which error it fails
    /// otherwise, decided over the pre-state. Settlement faults both
    /// surface as `SettlementFailed`: one before anything moved (the
    /// recipient cannot hold the amount), one after the transfer (the
    /// fee burn was not covered).
    pub open spec fn execute_check(self, origin: Origin, payment_id: u64) -> Result<(), Error> {
        match origin {
            Origin::Root => Err(Error::NotAuthorized),
            Origin::Signed(who) => match self.payment(payment_id) {
                None => Err(Error::PaymentNotFound),
                Some(p) => {
                    if p.status != PaymentStatus::Authorized {
                        Err(Error::PaymentNotPending)
                    } else if !self.transfer_fits(p) {
                        Err(Error::SettlementFailed)
                    } else if !self.fee_covered(p) {
                        Err(Error::SettlementFailed)
                    } else {
                        Ok(())
                    }
                },
            },
        }
    }

    /// Execute an authorized payment: settle the amount from the sender's
    /// reservation to the recipient, release and burn the fee, mark the
    /// record `Completed` and add the amount to the total volume. Any
    /// signed caller may trigger execution. A payment that is not
    /// authorized — still pending or already terminal — is answered with
    /// the one combined precondition error, `PaymentNotPending`. If the
    /// transfer itself cannot proceed nothing changes and the payment
    /// stays `Authorized`; if the fee burn faults after the transfer, the
    /// record is marked `Failed` so that settlement cannot be triggered
    /// twice.
    pub fn execute_payment(&mut self, origin: Origin, payment_id: u64) -> (r: Result<(), Error>)
        requires
            old(self).wf(),
        ensures
            final(self).wf(),
            r == old(self).execute_check(origin, payment_id),
            (match origin {
                Origin::Root => true,
                Origin::Signed(_) => match old(self).payment(payment_id) {
                    None => true,
                    Some(p) => p.status != PaymentStatus::Authorized
                        || !old(self).transfer_fits(p),
                },
            }) ==> *final(self) == *old(self),
            old(self).payment(payment_id) matches Some(p) && p.status == PaymentStatus::Authorized
                && origin is Signed && old(self).transfer_fits(p)
                && p.amount + old(self).fee() <= Balance::MAX ==> r.is_ok(),
            r.is_ok() ==> {
                let p = old(self).payment(payment_id)->Some_0;
                let from = p.from_government;
                let to = p.to_government;
                let moved = old(self).fee_moved(p);
                &&& final(self).payment(payment_id)
                    == Some(InterCountryPayment { status: PaymentStatus::Completed, ..p })
                &&& final(self).free(from) == old(self).free(from) + moved - old(self).fee()
                &&& final(self).reserved(from) == old(self).reserved(from) - p.amount - moved
                &&& final(self).free(to) == old(self).free(to) + p.amount
                &&& final(self).reserved(to) == old(self).reserved(to)
                &&& forall|x: AccountId| #![trigger final(self).custodian.free(x)]
                    x != from && x != to ==> final(self).free(x) == old(self).free(x)
                &&& forall|x: AccountId| #![trigger final(self).custodian.reserved(x)]
                    x != from && x != to ==> final(self).reserved(x) == old(self).reserved(x)
                &&& final(self).total_volume as int
                    == crate::sums::sat_add(old(self).total_volume as int, p.amount as int)
                &&& final(self).events@ == old(self).events@.push(Event::PaymentCompleted {
                        payment_id,
                        from_government: from,
                        to_government: to,
                        amount: p.amount,
                    })
            },
            (old(self).payment(payment_id) matches Some(p)
                && p.status == PaymentStatus::Authorized && origin is Signed
                && old(self).transfer_fits(p) && !old(self).fee_covered(p)) ==> {
                let p = old(self).payment(payment_id)->Some_0;
                let from = p.from_government;
                let to = p.to_government;
                let moved = old(self).fee_moved(p);
                &&& r == Err::<(), Error>(Error::SettlementFailed)
                &&& final(self).payment(payment_id)
                    == Some(InterCountryPayment { status: PaymentStatus::Failed, ..p })
                &&& final(self).free(from) == old(self).free(from) + moved
                &&& final(self).reserved(from) == old(self).reserved(from) - p.amount - moved
                &&& final(self).free(to) == old(self).free(to) + p.amount
                &&& final(self).reserved(to) == old(self).reserved(to)
                &&& forall|x: AccountId| #![trigger final(self).custodian.free(x)]
                    x != from && x != to ==> final(self).free(x) == old(self).free(x)
                &&& forall|x: AccountId| #![trigger final(self).custodian.reserved(x)]
                    x != from && x != to ==> final(self).reserved(x) == old(self).reserved(x)
                &&& final(self).total_volume == old(self).total_volume
                &&& final(self).events@ == old(self).events@
            },
            forall|id: u64| #![trigger final(self).payment(id)]
                id != payment_id ==> final(self).payment(id) == old(self).payment(id),
            final(self).registry == old(self).registry,
            final(self).history == old(self).history,
            final(self).next_id == old(self).next_id,
            final(self).config == old(self).config,
            Pallet::preserves_terminal(*old(self), *final(self)),
    {
        match origin {
            Origin::Signed(_) => {},
            Origin::Root => {
                return Err(Error::NotAuthorized);
            },
        };
        let idx = match self.find_payment(payment_id) {
            None => {
                return Err(Error::PaymentNotFound);
            },
            Some(i) => i,
        };
        let (from, to, amount) = {
            let p = &self.payments[idx];
            if !matches!(p.status, PaymentStatus::Authorized) {
                return Err(Error::PaymentNotPending);
            }
            (p.from_government, p.to_government, p.amount)
        };
        let ghost p_old = self.payments@[idx as int];
        let ghost fee_spec = self.fee();
        proof {
            assert(self.payment_wf(p_old));
            lemma_outstanding_bound(self.payments@, from, fee_spec, idx as int);
            assert(outstanding_cost(p_old, from, fee_spec)
                == payment_cost(p_old.amount, fee_spec) as int);
            assert(old(self).custodian.reserved(from) >= payment_cost(amount, fee_spec));
        }
        let fee = self.config.transaction_fee;
        match self.custodian.transfer_reserved(from, to, amount) {
            Err(_) => {
                return Err(Error::SettlementFailed);
            },
            Ok(_) => {},
        }
        let moved = self.custodian.unreserve(from, fee);
        proof {
            assert(moved == old(self).fee_moved(p_old));
        }
        let fee_paid = self.custodian.withdraw(from, fee);
        let completed = fee_paid.is_ok();
        {
            let p = &mut self.payments[idx];
            if completed {
                p.status = PaymentStatus::Completed;
            } else {
                p.status = PaymentStatus::Failed;
            }
        }
        if completed {
            self.total_volume = saturating_add_balance(self.total_volume, amount);
            self.events.push(Event::PaymentCompleted {
                payment_id,
                from_government: from,
                to_government: to,
                amount,
            });
        }
        proof {
            let p_new = self.payments@[idx as int];
            assert(self.payments@ == old(self).payments@.update(idx as int, p_new));
            assert forall|i: int| #![trigger self.payments@[i]]
                0 <= i < self.payments@.len()
                    implies self.payments@[i].payment_id == self.base() + i
                        && self.payment_wf(self.payments@[i]) by {
                assert(old(self).payment_wf(old(self).payments@[i]));
                if i != idx as int {
                    assert(self.payments@[i] == old(self).payments@[i]);
                }
            }
            assert forall|a: AccountId| #![trigger self.custodian.reserved(a)]
                outstanding_total(self.payments@, a, fee_spec) <= self.custodian.reserved(a) by {
                lemma_outstanding_update(old(self).payments@, idx as int, p_new, a, fee_spec);
                assert(outstanding_total(old(self).payments@, a, fee_spec)
                    <= old(self).custodian.reserved(a));
                if a == from {
                    assert(outstanding_cost(p_old, a, fee_spec)
                        == payment_cost(p_old.amount, fee_spec) as int);
                    assert(outstanding_cost(p_new, a, fee_spec) == 0);
                    assert(payment_cost(p_old.amount, fee_spec) >= p_old.amount + moved);
                } else {
                    assert(outstanding_cost(p_old, a, fee_spec) == 0);
                    assert(outstanding_cost(p_new, a, fee_spec) == 0);
                    if a != to {
                        assert(self.custodian.reserved(a) == old(self).custodian.reserved(a));
                    } else {
                        assert(self.custodian.reserved(a) == old(self).custodian.reserved(a));
                    }
                }
            }
            assert forall|id: u64| #![trigger self.payment(id)]
                id != payment_id implies self.payment(id) == old(self).payment(id) by {
                if self.base() <= id && id - self.base() < self.payments@.len() {
                    assert(self.payments@[id - self.base()]
                        == old(self).payments@[id - self.base()]);
                }
            }
            assert(self.payment(payment_id) == Some(p_new));
        }
        if completed {
            Ok(())
        } else {
            Err(Error::SettlementFailed)
        }
    }
    /// Derived statistics for `account`: how many payments it initiated,
    /// and the totals it sent and received over completed payments in its
    /// history (saturating). Only the initiator's history is indexed, so
    /// an account receives credit here only for payments it also appears
    /// in as recipient within its own history; that asymmetry is part of
    /// the design. Returns nothing for an account that never initiated a
    /// payment.
    pub fn get_government_stats(&self, account: AccountId) -> (r: Option<(u32, Balance, Balance)>)
        ensures
            r.is_some() == self.history.has(account),
            r matches Some(stats) ==> {
                &&& stats.1 as int == total_sent(
                    self.payments@, self.base(), self.history.of(account), account)
                &&& stats.2 as int == total_received(
                    self.payments@, self.base(), self.history.of(account), account)
                &&& self.history.of(account).len() <= u32::MAX
                    ==> stats.0 == self.history.of(account).len()
            },
    {
        let ids = match self.history.get(account) {
            None => {
                return None;
            },
            Some(ids) => ids,
        };
        let n = ids.len();
        let count = #[verifier::truncate] (n as u32);
        let ghost s = self.payments@;
        let ghost base = self.base();
        let ghost idseq = ids@;
        let mut sent: Balance = 0;
        let mut received: Balance = 0;
        let mut k: usize = 0;
        proof {
            assert(idseq.subrange(0, n as int) =~= idseq);
        }
        while k < n
            invariant
                k <= n,
                n == idseq.len(),
                ids@ == idseq,
                s == self.payments@,
                base == self.base(),
                total_sent(s, base, idseq, account)
                    == crate::sums::sent_from(s, base, idseq.subrange(k as int, n as int),
                        account, sent as int),
                total_received(s, base, idseq, account)
                    == crate::sums::received_from(s, base, idseq.subrange(k as int, n as int),
                        account, received as int),
            decreases n - k,
        {
            proof {
                lemma_fold_step(s, base, idseq, account, sent as int, received as int, k as int);
            }
            let id = ids[k];
            match self.find_payment(id) {
                Some(j) => {
                    let p = &self.payments[j];
                    if matches!(p.status, PaymentStatus::Completed) {
                        if p.from_government == account {
                            sent = saturating_add_balance(sent, p.amount);
                        } else if p.to_government == account {
                            received = saturating_add_balance(received, p.amount);
                        }
                    }
                },
                None => {},
            }
            k += 1;
        }
        proof {
            assert(idseq.subrange(n as int, n as int) =~= Seq::<u64>::empty());
        }
        Some((count, sent, received))
    }
}

/// Block-time provisioning lies outside this ledger; every timestamp it
/// records is this placeholder value.
fn current_timestamp() -> (r: u64)
    ensures
        r == 0,
{
    0u64
}

} // verus!
