use inter_country_payments::pallet::Pallet;
use inter_country_payments::types::{
    Config, Error, Event, GovernmentStatus, InstitutionType, Origin, PaymentPurpose, PaymentStatus,
};

const FEE: u128 = 10;

const GOV_X: u64 = 1;
const GOV_Y: u64 = 2;
const GOV_Z: u64 = 3;
const S1: u64 = 101;
const S2: u64 = 102;
const OUTSIDER: u64 = 999;

fn config() -> Config {
    Config {
        max_country_code_len: 3,
        max_reference_len: 32,
        transaction_fee: FEE,
        base_payment_id: 1,
    }
}

fn ledger() -> Pallet {
    Pallet::new(config())
}

fn register(
    p: &mut Pallet,
    account: u64,
    code: &[u8],
    threshold: u32,
    signers: &[u64],
) -> Result<(), Error> {
    p.register_government(
        Origin::Root,
        account,
        code.to_vec(),
        b"ministry".to_vec(),
        InstitutionType::Treasury,
        threshold,
        signers.to_vec(),
    )
}

fn purpose() -> PaymentPurpose {
    PaymentPurpose::TradeSettlement {
        trade_agreement_id: b"agreement-7".to_vec(),
        goods_reference: b"grain".to_vec(),
    }
}

fn initiate(p: &mut Pallet, from: u64, to: u64, amount: u128) -> Result<u64, Error> {
    p.initiate_payment(Origin::Signed(from), to, amount, purpose(), b"ref".to_vec())
}

#[test]
fn register_and_lookup() {
    let mut p = ledger();
    assert_eq!(register(&mut p, GOV_X, b"USA", 2, &[S1, S2]), Ok(()));
    let info = p.government_info(GOV_X).expect("registered");
    assert_eq!(info.country_code, b"USA".to_vec());
    assert_eq!(info.government_name, b"ministry".to_vec());
    assert_eq!(info.status, GovernmentStatus::Active);
    assert_eq!(info.signature_threshold, 2);
    assert_eq!(info.authorized_signatories, vec![S1, S2]);
    assert_eq!(p.country_to_account(&b"USA".to_vec()), Some(GOV_X));
    assert_eq!(p.country_to_account(&b"FRA".to_vec()), None);
    assert!(p.government_info(GOV_Y).is_none());
    assert!(p.get_government_stats(GOV_X).is_none());
}

#[test]
fn register_requires_root() {
    let mut p = ledger();
    assert_eq!(
        register_as(&mut p, Origin::Signed(GOV_X), GOV_X, b"USA", 1, &[S1]),
        Err(Error::NotAuthorized)
    );
    assert!(p.government_info(GOV_X).is_none());
}

fn register_as(
    p: &mut Pallet,
    origin: Origin,
    account: u64,
    code: &[u8],
    threshold: u32,
    signers: &[u64],
) -> Result<(), Error> {
    p.register_government(
        origin,
        account,
        code.to_vec(),
        b"ministry".to_vec(),
        InstitutionType::CentralBank,
        threshold,
        signers.to_vec(),
    )
}

#[test]
fn register_validation_errors() {
    let mut p = ledger();
    assert_eq!(
        register(&mut p, GOV_X, b"ABCD", 1, &[S1]),
        Err(Error::CountryCodeTooLong)
    );
    assert_eq!(
        register(&mut p, GOV_X, b"USA", 0, &[S1]),
        Err(Error::InvalidSignatureThreshold)
    );
}

#[test]
fn duplicate_registration_fails_for_account_and_code() {
    let mut p = ledger();
    assert_eq!(register(&mut p, GOV_X, b"USA", 1, &[S1]), Ok(()));
    // Same account again, even under another country code.
    assert_eq!(
        register(&mut p, GOV_X, b"FRA", 1, &[S1]),
        Err(Error::GovernmentAlreadyRegistered)
    );
    // Same country code again, under another account.
    assert_eq!(
        register(&mut p, GOV_Y, b"USA", 1, &[S1]),
        Err(Error::GovernmentAlreadyRegistered)
    );
    // A fresh account and code still works.
    assert_eq!(register(&mut p, GOV_Y, b"FRA", 1, &[S1]), Ok(()));
}

#[test]
fn update_status_overwrites_unconditionally() {
    let mut p = ledger();
    assert_eq!(register(&mut p, GOV_X, b"USA", 1, &[S1]), Ok(()));
    assert_eq!(
        p.update_government_status(Origin::Signed(GOV_X), GOV_X, GovernmentStatus::Suspended),
        Err(Error::NotAuthorized)
    );
    assert_eq!(
        p.update_government_status(Origin::Root, GOV_Y, GovernmentStatus::Suspended),
        Err(Error::GovernmentNotFound)
    );
    assert_eq!(
        p.update_government_status(Origin::Root, GOV_X, GovernmentStatus::Revoked),
        Ok(())
    );
    assert_eq!(p.government_info(GOV_X).unwrap().status, GovernmentStatus::Revoked);
    // No transition restriction: revoked back to active is allowed.
    assert_eq!(
        p.update_government_status(Origin::Root, GOV_X, GovernmentStatus::Active),
        Ok(())
    );
    assert_eq!(p.government_info(GOV_X).unwrap().status, GovernmentStatus::Active);
}

#[test]
fn initiate_validation_errors() {
    let mut p = ledger();
    assert_eq!(register(&mut p, GOV_X, b"USA", 1, &[S1]), Ok(()));
    assert_eq!(register(&mut p, GOV_Y, b"FRA", 1, &[S1]), Ok(()));
    p.deposit(GOV_X, 1_000);

    // A user call needs a signed origin.
    assert_eq!(
        p.initiate_payment(Origin::Root, GOV_Y, 5, purpose(), b"ref".to_vec()),
        Err(Error::NotAuthorized)
    );
    assert_eq!(initiate(&mut p, GOV_X, GOV_Y, 0), Err(Error::ZeroAmount));
    assert_eq!(initiate(&mut p, GOV_X, GOV_X, 5), Err(Error::SelfPayment));
    assert_eq!(
        p.initiate_payment(
            Origin::Signed(GOV_X),
            GOV_Y,
            5,
            purpose(),
            vec![0u8; 33],
        ),
        Err(Error::ReferenceTooLong)
    );
    assert_eq!(initiate(&mut p, GOV_Z, GOV_Y, 5), Err(Error::GovernmentNotFound));
    assert_eq!(initiate(&mut p, GOV_X, GOV_Z, 5), Err(Error::GovernmentNotFound));

    p.update_government_status(Origin::Root, GOV_Y, GovernmentStatus::Suspended)
        .unwrap();
    assert_eq!(initiate(&mut p, GOV_X, GOV_Y, 5), Err(Error::GovernmentNotActive));
    p.update_government_status(Origin::Root, GOV_Y, GovernmentStatus::Active)
        .unwrap();

    assert_eq!(
        initiate(&mut p, GOV_X, GOV_Y, 1_000),
        Err(Error::InsufficientBalance)
    );
    // Exactly amount + fee is enough.
    assert_eq!(initiate(&mut p, GOV_X, GOV_Y, 990), Ok(1));
}

#[test]
fn scenario_single_signer_payment_settles() {
    let mut p = ledger();
    assert_eq!(register(&mut p, GOV_X, b"USA", 1, &[S1]), Ok(()));
    assert_eq!(register(&mut p, GOV_Y, b"FRA", 1, &[S2]), Ok(()));
    p.deposit(GOV_X, 1_000);

    let id = initiate(&mut p, GOV_X, GOV_Y, 100).expect("initiated");
    assert_eq!(id, 1);
    // Amount plus fee is reserved: the free balance drops by 110.
    assert_eq!(p.free_balance(GOV_X), 890);
    assert_eq!(p.reserved_balance(GOV_X), 110);
    assert_eq!(
        p.payment_info(id).unwrap().status,
        PaymentStatus::Pending
    );
    assert_eq!(p.payment_info(id).unwrap().required_signatures, vec![S1]);

    // Threshold 1: a single signature authorizes immediately.
    assert_eq!(
        p.sign_payment(Origin::Signed(S1), id, b"attest-1".to_vec()),
        Ok(())
    );
    assert_eq!(p.payment_info(id).unwrap().status, PaymentStatus::Authorized);
    assert_eq!(p.payment_info(id).unwrap().signatures.len(), 1);

    // Anyone may execute.
    assert_eq!(p.execute_payment(Origin::Signed(OUTSIDER), id), Ok(()));
    assert_eq!(p.payment_info(id).unwrap().status, PaymentStatus::Completed);
    // 100 moved to the recipient; the 10 fee was burned from the sender.
    assert_eq!(p.free_balance(GOV_Y), 100);
    assert_eq!(p.free_balance(GOV_X), 890);
    assert_eq!(p.reserved_balance(GOV_X), 0);
    assert_eq!(p.total_payments_volume(), 100);
}

#[test]
fn scenario_threshold_two_stays_pending_after_one_signature() {
    let mut p = ledger();
    assert_eq!(register(&mut p, GOV_X, b"USA", 2, &[S1, S2]), Ok(()));
    assert_eq!(register(&mut p, GOV_Y, b"FRA", 1, &[S2]), Ok(()));
    p.deposit(GOV_X, 1_000);

    let id = initiate(&mut p, GOV_X, GOV_Y, 100).unwrap();
    assert_eq!(
        p.sign_payment(Origin::Signed(S1), id, b"attest-1".to_vec()),
        Ok(())
    );
    assert_eq!(p.payment_info(id).unwrap().status, PaymentStatus::Pending);
    assert_eq!(
        p.execute_payment(Origin::Signed(GOV_X), id),
        Err(Error::PaymentNotPending)
    );

    // The second signature reaches the threshold.
    assert_eq!(
        p.sign_payment(Origin::Signed(S2), id, b"attest-2".to_vec()),
        Ok(())
    );
    assert_eq!(p.payment_info(id).unwrap().status, PaymentStatus::Authorized);
    assert_eq!(p.execute_payment(Origin::Signed(GOV_X), id), Ok(()));
    assert_eq!(p.free_balance(GOV_Y), 100);
}

#[test]
fn scenario_cancel_returns_reservation() {
    let mut p = ledger();
    assert_eq!(register(&mut p, GOV_X, b"USA", 1, &[S1]), Ok(()));
    assert_eq!(register(&mut p, GOV_Y, b"FRA", 1, &[S2]), Ok(()));
    p.deposit(GOV_X, 500);

    let id = initiate(&mut p, GOV_X, GOV_Y, 100).unwrap();
    assert_eq!(p.free_balance(GOV_X), 390);
    assert_eq!(p.reserved_balance(GOV_X), 110);

    // Only the initiator may cancel, and only a payment that exists.
    assert_eq!(
        p.cancel_payment(Origin::Signed(GOV_X), 77, b"nope".to_vec()),
        Err(Error::PaymentNotFound)
    );
    assert_eq!(
        p.cancel_payment(Origin::Signed(GOV_Y), id, b"nope".to_vec()),
        Err(Error::NotAuthorizedSigner)
    );
    assert_eq!(
        p.cancel_payment(Origin::Signed(GOV_X), id, b"changed my mind".to_vec()),
        Ok(())
    );
    assert_eq!(p.payment_info(id).unwrap().status, PaymentStatus::Cancelled);
    // The full reservation, fee included, is back in the free balance.
    assert_eq!(p.free_balance(GOV_X), 500);
    assert_eq!(p.reserved_balance(GOV_X), 0);

    // A cancelled payment can no longer be signed.
    assert_eq!(
        p.sign_payment(Origin::Signed(S1), id, b"late".to_vec()),
        Err(Error::PaymentNotPending)
    );
}

#[test]
fn cancel_twice_fails_the_second_time() {
    let mut p = ledger();
    assert_eq!(register(&mut p, GOV_X, b"USA", 1, &[S1]), Ok(()));
    assert_eq!(register(&mut p, GOV_Y, b"FRA", 1, &[S2]), Ok(()));
    p.deposit(GOV_X, 500);
    let id = initiate(&mut p, GOV_X, GOV_Y, 100).unwrap();
    assert_eq!(p.cancel_payment(Origin::Signed(GOV_X), id, b"first".to_vec()), Ok(()));
    assert_eq!(
        p.cancel_payment(Origin::Signed(GOV_X), id, b"second".to_vec()),
        Err(Error::PaymentNotPending)
    );
}

#[test]
fn sign_errors() {
    let mut p = ledger();
    assert_eq!(register(&mut p, GOV_X, b"USA", 2, &[S1, S2]), Ok(()));
    assert_eq!(register(&mut p, GOV_Y, b"FRA", 1, &[S2]), Ok(()));
    p.deposit(GOV_X, 1_000);
    let id = initiate(&mut p, GOV_X, GOV_Y, 100).unwrap();

    assert_eq!(
        p.sign_payment(Origin::Signed(S1), 77, b"a".to_vec()),
        Err(Error::PaymentNotFound)
    );
    assert_eq!(
        p.sign_payment(Origin::Signed(OUTSIDER), id, b"a".to_vec()),
        Err(Error::NotAuthorizedSigner)
    );
    assert_eq!(p.sign_payment(Origin::Signed(S1), id, b"a".to_vec()), Ok(()));
    assert_eq!(
        p.sign_payment(Origin::Signed(S1), id, b"again".to_vec()),
        Err(Error::SignatureAlreadyProvided)
    );
}

#[test]
fn signing_an_authorized_payment_fails() {
    let mut p = ledger();
    // Threshold 1 with two eligible signers: the first signature
    // authorizes, the second finds the payment no longer pending.
    assert_eq!(register(&mut p, GOV_X, b"USA", 1, &[S1, S2]), Ok(()));
    assert_eq!(register(&mut p, GOV_Y, b"FRA", 1, &[S2]), Ok(()));
    p.deposit(GOV_X, 1_000);
    let id = initiate(&mut p, GOV_X, GOV_Y, 100).unwrap();
    assert_eq!(p.sign_payment(Origin::Signed(S1), id, b"a".to_vec()), Ok(()));
    assert_eq!(p.payment_info(id).unwrap().status, PaymentStatus::Authorized);
    assert_eq!(
        p.sign_payment(Origin::Signed(S2), id, b"b".to_vec()),
        Err(Error::PaymentNotPending)
    );
}

#[test]
fn execute_errors_and_terminal_states() {
    let mut p = ledger();
    assert_eq!(register(&mut p, GOV_X, b"USA", 1, &[S1]), Ok(()));
    assert_eq!(register(&mut p, GOV_Y, b"FRA", 1, &[S2]), Ok(()));
    p.deposit(GOV_X, 1_000);

    assert_eq!(
        p.execute_payment(Origin::Signed(GOV_X), 77),
        Err(Error::PaymentNotFound)
    );

    let id = initiate(&mut p, GOV_X, GOV_Y, 100).unwrap();
    // Still pending: not executable.
    assert_eq!(
        p.execute_payment(Origin::Signed(GOV_X), id),
        Err(Error::PaymentNotPending)
    );
    p.sign_payment(Origin::Signed(S1), id, b"a".to_vec()).unwrap();
    assert_eq!(p.execute_payment(Origin::Signed(GOV_X), id), Ok(()));
    // Completed is terminal: a second execution fails and moves nothing.
    assert_eq!(
        p.execute_payment(Origin::Signed(GOV_X), id),
        Err(Error::PaymentNotPending)
    );
    assert_eq!(p.free_balance(GOV_Y), 100);
    assert_eq!(p.total_payments_volume(), 100);
}

#[test]
fn settlement_fails_when_recipient_cannot_hold_the_amount() {
    let mut p = ledger();
    assert_eq!(register(&mut p, GOV_X, b"USA", 1, &[S1]), Ok(()));
    assert_eq!(register(&mut p, GOV_Y, b"FRA", 1, &[S2]), Ok(()));
    p.deposit(GOV_X, 1_000);
    p.deposit(GOV_Y, u128::MAX - 50);

    let id = initiate(&mut p, GOV_X, GOV_Y, 100).unwrap();
    p.sign_payment(Origin::Signed(S1), id, b"a".to_vec()).unwrap();
    // The transfer itself cannot proceed, so nothing changes and the
    // payment stays authorized for a later retry.
    assert_eq!(
        p.execute_payment(Origin::Signed(GOV_X), id),
        Err(Error::SettlementFailed)
    );
    assert_eq!(p.payment_info(id).unwrap().status, PaymentStatus::Authorized);
    assert_eq!(p.reserved_balance(GOV_X), 110);
    assert_eq!(p.free_balance(GOV_Y), u128::MAX - 50);
    assert_eq!(p.total_payments_volume(), 0);
}

#[test]
fn payment_ids_count_up_and_are_never_reused() {
    let mut p = ledger();
    assert_eq!(register(&mut p, GOV_X, b"USA", 1, &[S1]), Ok(()));
    assert_eq!(register(&mut p, GOV_Y, b"FRA", 1, &[S2]), Ok(()));
    p.deposit(GOV_X, 10_000);

    assert_eq!(p.next_payment_id(), 1);
    let a = initiate(&mut p, GOV_X, GOV_Y, 100).unwrap();
    let b = initiate(&mut p, GOV_X, GOV_Y, 200).unwrap();
    assert_eq!((a, b), (1, 2));
    p.cancel_payment(Origin::Signed(GOV_X), a, b"no".to_vec()).unwrap();
    // Cancellation does not free the identifier.
    let c = initiate(&mut p, GOV_X, GOV_Y, 300).unwrap();
    assert_eq!(c, 3);
    assert_eq!(p.next_payment_id(), 4);
    assert_eq!(p.payment_info(a).unwrap().amount, 100);
    assert_eq!(p.payment_info(b).unwrap().amount, 200);
    assert_eq!(p.payment_info(c).unwrap().amount, 300);
}

#[test]
fn stats_reflect_only_completed_payments() {
    let mut p = ledger();
    assert_eq!(register(&mut p, GOV_X, b"USA", 1, &[S1]), Ok(()));
    assert_eq!(register(&mut p, GOV_Y, b"FRA", 1, &[S2]), Ok(()));
    p.deposit(GOV_X, 10_000);
    p.deposit(GOV_Y, 10_000);

    // X sends 100 to Y and the payment completes.
    let a = initiate(&mut p, GOV_X, GOV_Y, 100).unwrap();
    p.sign_payment(Origin::Signed(S1), a, b"a".to_vec()).unwrap();
    p.execute_payment(Origin::Signed(GOV_X), a).unwrap();

    // Y sends 40 to X and the payment completes.
    let b = initiate(&mut p, GOV_Y, GOV_X, 40).unwrap();
    p.sign_payment(Origin::Signed(S2), b, b"b".to_vec()).unwrap();
    p.execute_payment(Origin::Signed(GOV_Y), b).unwrap();

    // X also has a payment that stays pending and one it cancelled:
    // neither contributes to the totals.
    let c = initiate(&mut p, GOV_X, GOV_Y, 7).unwrap();
    let d = initiate(&mut p, GOV_X, GOV_Y, 9).unwrap();
    p.cancel_payment(Origin::Signed(GOV_X), d, b"no".to_vec()).unwrap();
    let _ = c;

    // X's stats cover the three payments X initiated; only the completed
    // one counts towards the totals. The incoming 40 from Y lives in Y's
    // history, not X's, so it never shows up under X — the history index
    // is initiator-only by design.
    assert_eq!(p.get_government_stats(GOV_X), Some((3, 100, 0)));
    assert_eq!(p.get_government_stats(GOV_Y), Some((1, 40, 0)));
    assert_eq!(p.get_government_stats(OUTSIDER), None);

    assert_eq!(p.government_payment_history(GOV_X).unwrap(), &vec![a, c, d]);
    assert_eq!(p.government_payment_history(GOV_Y).unwrap(), &vec![b]);

    assert_eq!(p.total_payments_volume(), 140);
}

#[test]
fn event_log_records_the_lifecycle_in_order() {
    let mut p = ledger();
    register(&mut p, GOV_X, b"USA", 1, &[S1]).unwrap();
    register_as(&mut p, Origin::Root, GOV_Y, b"FRA", 1, &[S2]).unwrap();
    p.deposit(GOV_X, 1_000);
    let id = initiate(&mut p, GOV_X, GOV_Y, 100).unwrap();
    p.sign_payment(Origin::Signed(S1), id, b"a".to_vec()).unwrap();
    p.execute_payment(Origin::Signed(GOV_X), id).unwrap();

    let log = p.event_log();
    assert_eq!(log.len(), 6);
    assert_eq!(
        log[0],
        Event::GovernmentRegistered {
            account: GOV_X,
            country_code: b"USA".to_vec(),
            institution_type: InstitutionType::Treasury,
        }
    );
    assert_eq!(
        log[1],
        Event::GovernmentRegistered {
            account: GOV_Y,
            country_code: b"FRA".to_vec(),
            institution_type: InstitutionType::CentralBank,
        }
    );
    assert_eq!(
        log[2],
        Event::PaymentInitiated {
            payment_id: id,
            from_government: GOV_X,
            to_government: GOV_Y,
            amount: 100,
        }
    );
    // The authorization notification precedes the signature notification.
    assert_eq!(log[3], Event::PaymentAuthorized { payment_id: id });
    assert_eq!(
        log[4],
        Event::PaymentSignatureAdded { payment_id: id, signer: S1 }
    );
    assert_eq!(
        log[5],
        Event::PaymentCompleted {
            payment_id: id,
            from_government: GOV_X,
            to_government: GOV_Y,
            amount: 100,
        }
    );
}

#[test]
fn cancellation_event_carries_the_reason() {
    let mut p = ledger();
    register(&mut p, GOV_X, b"USA", 1, &[S1]).unwrap();
    register(&mut p, GOV_Y, b"FRA", 1, &[S2]).unwrap();
    p.deposit(GOV_X, 500);
    let id = initiate(&mut p, GOV_X, GOV_Y, 100).unwrap();
    p.cancel_payment(Origin::Signed(GOV_X), id, b"supplier defaulted".to_vec())
        .unwrap();
    let log = p.event_log();
    assert_eq!(
        log[log.len() - 1],
        Event::PaymentCancelled {
            payment_id: id,
            reason: b"supplier defaulted".to_vec(),
        }
    );
}

#[test]
fn required_signers_are_snapshotted_at_initiation() {
    let mut p = ledger();
    register(&mut p, GOV_X, b"USA", 1, &[S1]).unwrap();
    register(&mut p, GOV_Y, b"FRA", 1, &[S2]).unwrap();
    p.deposit(GOV_X, 1_000);
    let id = initiate(&mut p, GOV_X, GOV_Y, 100).unwrap();
    // The payment carries its own copy of the signer set.
    assert_eq!(p.payment_info(id).unwrap().required_signatures, vec![S1]);
    assert_eq!(p.payment_info(id).unwrap().signatures.len(), 0);
    assert_eq!(p.payment_info(id).unwrap().purpose, purpose());
    assert_eq!(p.payment_info(id).unwrap().reference, b"ref".to_vec());
}

#[test]
fn amount_plus_fee_saturates_at_the_ceiling() {
    // With the whole supply on one account, amount + fee clamps at the
    // numeric ceiling and exactly that is reserved.
    let mut p = ledger();
    register(&mut p, GOV_X, b"USA", 1, &[S1]).unwrap();
    register(&mut p, GOV_Y, b"FRA", 1, &[S2]).unwrap();
    p.deposit(GOV_X, u128::MAX);
    let id = initiate(&mut p, GOV_X, GOV_Y, u128::MAX - 3).unwrap();
    assert_eq!(p.free_balance(GOV_X), 0);
    assert_eq!(p.reserved_balance(GOV_X), u128::MAX);
    assert_eq!(p.payment_info(id).unwrap().amount, u128::MAX - 3);
}
