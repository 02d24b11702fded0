//! Shared data model: accounts, statuses, payment records and errors.

use vstd::prelude::*;

verus! {

/// Opaque account handle for governments and signers.
pub type AccountId = u64;

/// Unsigned token amount.
pub type Balance = u128;

/// Who issued a call: the administrative (root) authority or a signed account.
#[derive(Clone, Copy, Debug, PartialEq, Eq, Structural)]
pub enum Origin {
    Root,
    Signed(AccountId),
}

/// Verification status of a registered government.
#[derive(Clone, Copy, Debug, PartialEq, Eq, Structural)]
pub enum GovernmentStatus {
    /// Government is verified and active.
    Active,
    /// Government is verified but temporarily suspended.
    Suspended,
    /// Government verification is pending.
    Pending,
    /// Government access has been revoked.
    Revoked,
}

/// Kind of government institution.
#[derive(Clone, Copy, Debug, PartialEq, Eq, Structural)]
pub enum InstitutionType {
    Treasury,
    CentralBank,
    MinistryOfFinance,
    MonetaryAuthority,
    FinancialIntelligenceUnit,
    CustomsAuthority,
}

/// Urgency levels for emergency assistance.
#[derive(Clone, Copy, Debug, PartialEq, Eq, Structural)]
pub enum UrgencyLevel {
    Low,
    Medium,
    High,
    Critical,
}

/// Expense categories for diplomatic payments.
#[derive(Clone, Copy, Debug, PartialEq, Eq, Structural)]
pub enum ExpenseCategory {
    EmbassyOperations,
    ConsularServices,
    DiplomaticMissions,
    CulturalExchange,
    SecurityExpenses,
}

/// Kinds of international contributions.
#[derive(Clone, Copy, Debug, PartialEq, Eq, Structural)]
pub enum ContributionType {
    MembershipFees,
    SpecialAssessment,
    VoluntaryContribution,
    PeacekeepingFunds,
}

/// Purpose of a payment, with free-form reference fields per category.
#[derive(Clone, Debug, PartialEq, Eq)]
pub enum PaymentPurpose {
    /// Bilateral trade settlement.
    TradeSettlement { trade_agreement_id: Vec<u8>, goods_reference: Vec<u8> },
    /// Development aid and assistance.
    DevelopmentAid { program_id: Vec<u8>, beneficiary_country: Vec<u8> },
    /// Emergency assistance (disaster relief, humanitarian aid).
    EmergencyAssistance { disaster_reference: Vec<u8>, urgency_level: UrgencyLevel },
    /// Diplomatic expenses (embassy operations, diplomatic missions).
    DiplomaticExpenses { embassy_code: Vec<u8>, expense_category: ExpenseCategory },
    /// International organization contributions.
    InternationalContribution { organization: Vec<u8>, contribution_type: ContributionType },
    /// Loan repayments between governments.
    LoanRepayment { loan_agreement_id: Vec<u8>, installment_number: u32 },
}

/// Government registration record.
#[derive(Clone, Debug, PartialEq, Eq)]
pub struct GovernmentInfo {
    /// ISO 3166-1 alpha-3 country code (bounded byte sequence).
    pub country_code: Vec<u8>,
    /// Official government name.
    pub government_name: Vec<u8>,
    /// Kind of institution.
    pub institution_type: InstitutionType,
    /// Verification status.
    pub status: GovernmentStatus,
    /// Multi-signature threshold for outgoing payments; always positive.
    pub signature_threshold: u32,
    /// Authorized signatories.
    pub authorized_signatories: Vec<AccountId>,
    /// Registration timestamp.
    pub registered_at: u64,
}

/// Status of a payment in its lifecycle.
#[derive(Clone, Copy, Debug, PartialEq, Eq, Structural)]
pub enum PaymentStatus {
    /// Initiated, awaiting signatures.
    Pending,
    /// Required signatures collected, ready for execution.
    Authorized,
    /// Successfully executed.
    Completed,
    /// A settlement-time fault occurred after funds had started to move.
    Failed,
    /// Cancelled by the initiator before execution.
    Cancelled,
}

/// A collected attestation: the signer together with the attestation bytes.
pub type SignatureEntry = (AccountId, Vec<u8>);

/// An inter-country payment record.
#[derive(Clone, Debug, PartialEq, Eq)]
pub struct InterCountryPayment {
    /// Unique, strictly increasing identifier, assigned at creation.
    pub payment_id: u64,
    /// Sending government account.
    pub from_government: AccountId,
    /// Receiving government account.
    pub to_government: AccountId,
    /// Payment amount; always positive.
    pub amount: Balance,
    /// Purpose of the payment.
    pub purpose: PaymentPurpose,
    /// External reference (bounded byte sequence).
    pub reference: Vec<u8>,
    /// Required signers, snapshotted from the sender's signer set at initiation.
    pub required_signatures: Vec<AccountId>,
    /// Collected (signer, attestation) pairs; signers are unique and required.
    pub signatures: Vec<SignatureEntry>,
    /// Creation timestamp.
    pub timestamp: u64,
    /// Lifecycle status.
    pub status: PaymentStatus,
}

/// Everything a call can fail with.
#[derive(Clone, Copy, Debug, PartialEq, Eq, Structural)]
pub enum Error {
    /// Government already registered under this account or country code.
    GovernmentAlreadyRegistered,
    /// Government not found or not registered.
    GovernmentNotFound,
    /// Government is not active (suspended, revoked or pending).
    GovernmentNotActive,
    /// Payment not found.
    PaymentNotFound,
    /// Payment is not in the state the call needs.
    PaymentNotPending,
    /// Insufficient free balance for amount plus fee.
    InsufficientBalance,
    /// Caller is not an authorized signer (or, for cancel, not the initiator).
    NotAuthorizedSigner,
    /// This signer already attested to the payment.
    SignatureAlreadyProvided,
    /// Payment amount must be greater than zero.
    ZeroAmount,
    /// Country code exceeds the configured bound.
    CountryCodeTooLong,
    /// Reference exceeds the configured bound.
    ReferenceTooLong,
    /// Sender and recipient must differ.
    SelfPayment,
    /// Signature threshold must be greater than zero.
    InvalidSignatureThreshold,
    /// Payment already has all required signatures.
    PaymentAlreadyAuthorized,
    /// The caller lacks the authority the call needs (administrative calls
    /// need the root origin; user calls need a signed origin).
    NotAuthorized,
    /// The custodian refused or faulted during settlement.
    SettlementFailed,
}

/// Notifications emitted by the ledger, in order of occurrence.
#[derive(Clone, Debug, PartialEq, Eq)]
pub enum Event {
    /// A government was registered.
    GovernmentRegistered { account: AccountId, country_code: Vec<u8>, institution_type: InstitutionType },
    /// A payment was initiated.
    PaymentInitiated { payment_id: u64, from_government: AccountId, to_government: AccountId, amount: Balance },
    /// A signature was added to a payment.
    PaymentSignatureAdded { payment_id: u64, signer: AccountId },
    /// A payment collected enough signatures to become authorized.
    PaymentAuthorized { payment_id: u64 },
    /// A payment was settled and completed.
    PaymentCompleted { payment_id: u64, from_government: AccountId, to_government: AccountId, amount: Balance },
    /// A payment was cancelled, with the initiator's free-form reason.
    PaymentCancelled { payment_id: u64, reason: Vec<u8> },
    /// A government's status was overwritten by the administrator.
    GovernmentStatusUpdated { account: AccountId, status: GovernmentStatus },
}

/// Ledger configuration: bounds, the fixed transaction fee and the first
/// payment identifier.
#[derive(Clone, Copy, Debug, PartialEq, Eq, Structural)]
pub struct Config {
    /// Maximum length of a country code.
    pub max_country_code_len: usize,
    /// Maximum length of a payment reference.
    pub max_reference_len: usize,
    /// Fixed fee charged to the sender of every executed payment.
    pub transaction_fee: Balance,
    /// Identifier assigned to the first payment; later ones count up from it.
    pub base_payment_id: u64,
}

/// Whether `who` already appears among the collected signers.
pub open spec fn has_signer(sigs: Seq<SignatureEntry>, who: AccountId) -> bool {
    exists|i: int| 0 <= i < sigs.len() && sigs[i].0 == who
}

/// No signer appears twice among the collected signatures.
pub open spec fn signers_distinct(sigs: Seq<SignatureEntry>) -> bool {
    forall|i: int, j: int| 0 <= i < j < sigs.len() ==> sigs[i].0 != sigs[j].0
}

/// Every collected signer belongs to the required signer set.
pub open spec fn signers_required(sigs: Seq<SignatureEntry>, required: Seq<AccountId>) -> bool {
    forall|i: int| 0 <= i < sigs.len() ==> required.contains(#[trigger] sigs[i].0)
}

/// Total cost of a payment to its sender: amount plus the fixed fee,
/// clamped at the numeric ceiling.
pub open spec fn payment_cost(amount: Balance, fee: Balance) -> Balance {
    if amount + fee > Balance::MAX {
        Balance::MAX
    } else {
        (amount + fee) as Balance
    }
}

/// A status no transition may ever leave.
pub open spec fn is_terminal(status: PaymentStatus) -> bool {
    status == PaymentStatus::Completed || status == PaymentStatus::Cancelled
        || status == PaymentStatus::Failed
}

/// Saturating addition on balances.
pub fn saturating_add_balance(a: Balance, b: Balance) -> (r: Balance)
    ensures
        r == if a + b > Balance::MAX { Balance::MAX } else { (a + b) as Balance },
{
    if a > Balance::MAX - b {
        Balance::MAX
    } else {
        a + b
    }
}

/// Copy the contents of a vector of copyable values.
pub fn copy_vec<T: Copy>(v: &Vec<T>) -> (r: Vec<T>)
    ensures
        r@ == v@,
{
    let mut r: Vec<T> = Vec::new();
    let mut i: usize = 0;
    while i < v.len()
        invariant
            i <= v.len(),
            r@ == v@.subrange(0, i as int),
        decreases v.len() - i,
    {
        r.push(v[i]);
        assert(r@ =~= v@.subrange(0, i + 1 as int));
        i += 1;
    }
    assert(r@ =~= v@);
    r
}

/// Whether two byte sequences hold the same bytes.
pub fn bytes_eq(a: &Vec<u8>, b: &Vec<u8>) -> (r: bool)
    ensures
        r == (a@ == b@),
{
    if a.len() != b.len() {
        return false;
    }
    let mut i: usize = 0;
    while i < a.len()
        invariant
            a@.len() == b@.len(),
            i <= a@.len(),
            forall|j: int| 0 <= j < i ==> a@[j] == b@[j],
        decreases a@.len() - i,
    {
        if a[i] != b[i] {
            return false;
        }
        i += 1;
    }
    proof {
        assert(a@ =~= b@);
    }
    true
}

/// Whether an account occurs in a signer list.
pub fn contains_account(v: &Vec<AccountId>, who: AccountId) -> (r: bool)
    ensures
        r == v@.contains(who),
{
    let mut i: usize = 0;
    while i < v.len()
        invariant
            i <= v.len(),
            forall|j: int| 0 <= j < i ==> v@[j] != who,
        decreases v.len() - i,
    {
        if v[i] == who {
            return true;
        }
        i += 1;
    }
    false
}

/// Whether `who` already appears among the collected signatures.
pub fn find_signer(sigs: &Vec<SignatureEntry>, who: AccountId) -> (r: bool)
    ensures
        r == has_signer(sigs@, who),
{
    let mut i: usize = 0;
    while i < sigs.len()
        invariant
            i <= sigs@.len(),
            forall|j: int| 0 <= j < i ==> sigs@[j].0 != who,
        decreases sigs@.len() - i,
    {
        if sigs[i].0 == who {
            assert(sigs@[i as int].0 == who);
            return true;
        }
        i += 1;
    }
    false
}

} // verus!
