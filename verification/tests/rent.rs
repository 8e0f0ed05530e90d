use turbine::rent::{calculate_burn, RentDue, DEFAULT_BURN_PERCENT, DEFAULT_LAMPORTS_PER_BYTE_YEAR};

#[test]
fn test_rent_due_lamports() {
    assert_eq!(RentDue::Exempt.lamports(), 0);

    let amount = 123;
    assert_eq!(RentDue::Paying(amount).lamports(), amount);
}

#[test]
fn test_rent_due_is_exempt() {
    assert!(RentDue::Exempt.is_exempt());
    assert!(!RentDue::Paying(0).is_exempt());
}

#[test]
fn test_calculate_burn_splits_rent() {
    assert_eq!(calculate_burn(DEFAULT_BURN_PERCENT, 101), (50, 51));
    assert_eq!(calculate_burn(0, 77), (0, 77));
    assert_eq!(calculate_burn(100, 77), (77, 0));
    assert_eq!(calculate_burn(33, 1000), (330, 670));
    assert_eq!(calculate_burn(1, 99), (0, 99));
}

#[test]
fn test_default_rate() {
    assert_eq!(DEFAULT_LAMPORTS_PER_BYTE_YEAR, 3480);
}
