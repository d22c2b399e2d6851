use radix_name_service::registry::RadixNameService;
use radix_name_service::types::{Currency, Funds, RnsError};
use radix_name_service::PERIODS_PER_YEAR;

fn custody(amount: u128) -> Funds {
    Funds { currency: Currency::Custody, amount }
}

#[test]
fn register_then_lookup_returns_target() {
    let (mut rns, _admin) = RadixNameService::instantiate_rns(10, 1, 2);
    let (_cert, change) = rns
        .register_name("alice.xrd", "addrA".to_string(), 1, custody(10), 0)
        .unwrap();
    assert_eq!(change, custody(0));
    assert_eq!(rns.lookup_address("alice.xrd").unwrap(), "addrA".to_string());
}

#[test]
fn full_lifecycle_scenario() {
    let (mut rns, _admin) = RadixNameService::instantiate_rns(10, 1, 2);
    let (cert, change) = rns
        .register_name("alice.xrd", "addrA".to_string(), 1, custody(10), 0)
        .unwrap();
    assert_eq!(change, custody(0));
    assert_eq!(rns.lookup_address("alice.xrd").unwrap(), "addrA".to_string());
    let change = rns.renew_name(&cert, 2, custody(4)).unwrap();
    assert_eq!(change, custody(0));
    let refund = rns.unregister_name(vec![cert]).unwrap();
    assert_eq!(refund, custody(10));
}

#[test]
fn insufficient_deposit_is_rejected() {
    let (mut rns, _admin) = RadixNameService::instantiate_rns(10, 1, 2);
    let r = rns.register_name("bob.xrd", "addrB".to_string(), 1, custody(5), 0);
    assert_eq!(r.err().unwrap(), RnsError::InsufficientPayment { required: 10 });
}

#[test]
fn lookup_of_unknown_name_fails() {
    let (rns, _admin) = RadixNameService::instantiate_rns(10, 1, 2);
    assert_eq!(
        rns.lookup_address("never.xrd").err().unwrap(),
        RnsError::NameNotFound
    );
}

#[test]
fn duplicate_registration_fails_until_unregistered() {
    let (mut rns, _admin) = RadixNameService::instantiate_rns(10, 1, 2);
    let (cert, _change) = rns
        .register_name("alice.xrd", "addrA".to_string(), 1, custody(10), 0)
        .unwrap();
    let second = rns.register_name("alice.xrd", "other".to_string(), 1, custody(10), 0);
    assert_eq!(second.err().unwrap(), RnsError::DuplicateName);
    let refund = rns.unregister_name(vec![cert]).unwrap();
    assert_eq!(refund, custody(10));
    let third = rns.register_name("alice.xrd", "other".to_string(), 1, custody(10), 0);
    assert!(third.is_ok());
    assert_eq!(rns.lookup_address("alice.xrd").unwrap(), "other".to_string());
}

#[test]
fn overpayment_returns_exact_change() {
    let (mut rns, _admin) = RadixNameService::instantiate_rns(10, 1, 2);
    let (cert, change) = rns
        .register_name("alice.xrd", "addrA".to_string(), 2, custody(37), 0)
        .unwrap();
    assert_eq!(change, custody(17));
    let change = rns.update_address(&cert, "addrB".to_string(), custody(5)).unwrap();
    assert_eq!(change, custody(4));
    let change = rns.renew_name(&cert, 3, custody(10)).unwrap();
    assert_eq!(change, custody(4));
}

#[test]
fn renewal_extends_from_prior_deadline() {
    let (mut rns, _admin) = RadixNameService::instantiate_rns(10, 1, 2);
    let (cert, _change) = rns
        .register_name("alice.xrd", "addrA".to_string(), 1, custody(10), 123)
        .unwrap();
    assert_eq!(rns.valid_until("alice.xrd").unwrap(), 123 + PERIODS_PER_YEAR);
    let change = rns.renew_name(&cert, 2, custody(4)).unwrap();
    assert_eq!(change, custody(0));
    assert_eq!(
        rns.valid_until("alice.xrd").unwrap(),
        123 + 3 * PERIODS_PER_YEAR
    );
}

#[test]
fn update_address_changes_only_the_address() {
    let (mut rns, _admin) = RadixNameService::instantiate_rns(10, 1, 2);
    let (cert, _change) = rns
        .register_name("alice.xrd", "addrA".to_string(), 1, custody(10), 7)
        .unwrap();
    let change = rns.update_address(&cert, "addrB".to_string(), custody(1)).unwrap();
    assert_eq!(change, custody(0));
    assert_eq!(rns.lookup_address("alice.xrd").unwrap(), "addrB".to_string());
    assert_eq!(rns.valid_until("alice.xrd").unwrap(), 7 + PERIODS_PER_YEAR);
    assert_eq!(rns.deposit_ledger_balance(), 10);
    assert_eq!(rns.fee_ledger_balance(), 1);
}

#[test]
fn deposit_ledger_matches_locked_deposits() {
    let (mut rns, _admin) = RadixNameService::instantiate_rns(10, 1, 2);
    assert_eq!(rns.deposit_ledger_balance(), 0);
    let (cert_a, _) = rns
        .register_name("alice.xrd", "addrA".to_string(), 1, custody(10), 0)
        .unwrap();
    assert_eq!(rns.deposit_ledger_balance(), 10);
    let (cert_b, _) = rns
        .register_name("bob.xrd", "addrB".to_string(), 2, custody(20), 0)
        .unwrap();
    assert_eq!(rns.deposit_ledger_balance(), 30);
    let refund = rns.unregister_name(vec![cert_a]).unwrap();
    assert_eq!(refund, custody(10));
    assert_eq!(rns.deposit_ledger_balance(), 20);
    let refund = rns.unregister_name(vec![cert_b]).unwrap();
    assert_eq!(refund, custody(20));
    assert_eq!(rns.deposit_ledger_balance(), 0);
}

#[test]
fn batch_unregistration_refunds_the_sum() {
    let (mut rns, _admin) = RadixNameService::instantiate_rns(10, 1, 2);
    let (cert_a, _) = rns
        .register_name("alice.xrd", "addrA".to_string(), 1, custody(10), 0)
        .unwrap();
    let (cert_b, _) = rns
        .register_name("bob.xrd", "addrB".to_string(), 3, custody(30), 0)
        .unwrap();
    let refund = rns.unregister_name(vec![cert_a, cert_b]).unwrap();
    assert_eq!(refund, custody(40));
    assert_eq!(
        rns.lookup_address("alice.xrd").err().unwrap(),
        RnsError::NameNotFound
    );
    assert_eq!(
        rns.lookup_address("bob.xrd").err().unwrap(),
        RnsError::NameNotFound
    );
}

#[test]
fn bad_name_and_bad_duration_are_rejected() {
    let (mut rns, _admin) = RadixNameService::instantiate_rns(10, 1, 2);
    let r = rns.register_name("alice.com", "addrA".to_string(), 1, custody(10), 0);
    assert_eq!(r.err().unwrap(), RnsError::InvalidNameFormat);
    let r = rns.register_name("xrd", "addrA".to_string(), 1, custody(10), 0);
    assert_eq!(r.err().unwrap(), RnsError::InvalidNameFormat);
    let r = rns.register_name("alice.xrd", "addrA".to_string(), 0, custody(10), 0);
    assert_eq!(r.err().unwrap(), RnsError::ReserveDurationTooShort);
}

#[test]
fn foreign_currency_is_rejected() {
    let (mut rns, _admin) = RadixNameService::instantiate_rns(10, 1, 2);
    let foreign = Funds { currency: Currency::Foreign, amount: 100 };
    let r = rns.register_name("alice.xrd", "addrA".to_string(), 1, foreign, 0);
    assert_eq!(r.err().unwrap(), RnsError::WrongCurrency);
    let (cert, _) = rns
        .register_name("alice.xrd", "addrA".to_string(), 1, custody(10), 0)
        .unwrap();
    let r = rns.update_address(&cert, "addrB".to_string(), foreign);
    assert_eq!(r.err().unwrap(), RnsError::WrongCurrency);
    let r = rns.renew_name(&cert, 1, foreign);
    assert_eq!(r.err().unwrap(), RnsError::WrongCurrency);
}

#[test]
fn empty_certificate_batch_is_rejected() {
    let (mut rns, _admin) = RadixNameService::instantiate_rns(10, 1, 2);
    let r = rns.unregister_name(Vec::new());
    assert!(matches!(r, Err((RnsError::InvalidOrEmptyCertificate, _))));
}

#[test]
fn stale_certificate_is_rejected() {
    let (mut other, _admin_other) = RadixNameService::instantiate_rns(10, 1, 2);
    let (stale, _) = other
        .register_name("alice.xrd", "addrA".to_string(), 1, custody(10), 0)
        .unwrap();
    let (mut rns, _admin) = RadixNameService::instantiate_rns(10, 1, 2);
    let r = rns.update_address(&stale, "addrB".to_string(), custody(1));
    assert_eq!(r.err().unwrap(), RnsError::OwnershipProofInvalid);
    let r = rns.renew_name(&stale, 1, custody(2));
    assert_eq!(r.err().unwrap(), RnsError::OwnershipProofInvalid);
    let r = rns.unregister_name(vec![stale]);
    assert!(matches!(r, Err((RnsError::OwnershipProofInvalid, _))));
}

#[test]
fn withdraw_fees_drains_the_fee_ledger() {
    let (mut rns, admin) = RadixNameService::instantiate_rns(10, 1, 2);
    let (cert, _) = rns
        .register_name("alice.xrd", "addrA".to_string(), 1, custody(10), 0)
        .unwrap();
    rns.update_address(&cert, "addrB".to_string(), custody(1)).unwrap();
    rns.renew_name(&cert, 2, custody(4)).unwrap();
    assert_eq!(rns.fee_ledger_balance(), 5);
    let fees = rns.withdraw_fees(&admin);
    assert_eq!(fees, custody(5));
    assert_eq!(rns.fee_ledger_balance(), 0);
    assert_eq!(rns.deposit_ledger_balance(), 10);
}

#[test]
fn expiry_sweep_burns_only_lapsed_records() {
    let (mut rns, admin) = RadixNameService::instantiate_rns(10, 1, 2);
    let (_cert_a, _) = rns
        .register_name("alice.xrd", "addrA".to_string(), 1, custody(10), 0)
        .unwrap();
    let (_cert_b, _) = rns
        .register_name("bob.xrd", "addrB".to_string(), 2, custody(20), 0)
        .unwrap();
    // At exactly the deadline the record is not yet expired.
    rns.burn_expired_names(&admin, PERIODS_PER_YEAR);
    assert!(rns.lookup_address("alice.xrd").is_ok());
    // One period later the one-year record is swept; its deposit is
    // forfeited to the fee ledger.
    rns.burn_expired_names(&admin, PERIODS_PER_YEAR + 1);
    assert_eq!(
        rns.lookup_address("alice.xrd").err().unwrap(),
        RnsError::NameNotFound
    );
    assert!(rns.lookup_address("bob.xrd").is_ok());
    assert_eq!(rns.deposit_ledger_balance(), 20);
    assert_eq!(rns.fee_ledger_balance(), 10);
}

#[test]
fn maximum_reservation_length() {
    let (mut rns, _admin) = RadixNameService::instantiate_rns(10, 1, 2);
    let (_cert, change) = rns
        .register_name("alice.xrd", "addrA".to_string(), 255, custody(2550), 0)
        .unwrap();
    assert_eq!(change, custody(0));
    assert_eq!(rns.valid_until("alice.xrd").unwrap(), 255 * PERIODS_PER_YEAR);
    assert_eq!(rns.deposit_ledger_balance(), 2550);
}

#[test]
fn duplicate_identifiers_in_one_batch_are_rejected() {
    // Two registries derive the same identifier for the same name, so a
    // batch can present one identifier twice; the call aborts and hands the
    // certificates back.
    let (mut rns, _admin) = RadixNameService::instantiate_rns(10, 1, 2);
    let (cert_a, _) = rns
        .register_name("alice.xrd", "addrA".to_string(), 1, custody(10), 0)
        .unwrap();
    let (mut other, _admin_other) = RadixNameService::instantiate_rns(10, 1, 2);
    let (cert_b, _) = other
        .register_name("alice.xrd", "addrA".to_string(), 1, custody(10), 0)
        .unwrap();
    let r = rns.unregister_name(vec![cert_a, cert_b]);
    let mut returned = match r {
        Err((e, batch)) => {
            assert_eq!(e, RnsError::OwnershipProofInvalid);
            batch
        },
        Ok(_) => panic!("a batch with a repeated identifier must be rejected"),
    };
    assert_eq!(returned.len(), 2);
    let cert_a = returned.remove(0);
    let refund = rns.unregister_name(vec![cert_a]).unwrap();
    assert_eq!(refund, custody(10));
}

#[test]
fn expired_name_still_resolves_until_swept() {
    let (mut rns, _admin) = RadixNameService::instantiate_rns(10, 1, 2);
    rns.register_name("alice.xrd", "addrA".to_string(), 1, custody(10), 0)
        .unwrap();
    // The lease lapsed long ago, but lookup does not check expiry.
    assert_eq!(rns.lookup_address("alice.xrd").unwrap(), "addrA".to_string());
}
