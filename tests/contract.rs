use chershare::contract::{Contract, ContractError, Pricing, SimpleRent};

#[test]
fn simple_rent_prices_by_duration() {
    let p = SimpleRent { price_per_ms: 3 };
    assert_eq!(p.get_price(10, 20), 30);
    assert_eq!(p.get_price(-20, -10), 30);
    assert_eq!(p.get_price(i64::MIN, i64::MAX), 3 * (u64::MAX as i128));
}

#[test]
fn simple_rent_refunds_the_whole_price() {
    let p = SimpleRent { price_per_ms: 5 };
    assert_eq!(p.get_refund(0, 4, 0), 20);
    assert_eq!(p.get_refund(0, 4, 100), 20);
}

#[test]
fn registry_refuses_a_taken_id() {
    let mut c = Contract::default();
    assert_eq!(c.create_resource("r1".to_string(), "Room".to_string(), "Big".to_string(), 2), Ok(()));
    assert_eq!(c.create_resource("r2".to_string(), "Room".to_string(), "Big".to_string(), 2), Ok(()));
    assert_eq!(
        c.create_resource("r1".to_string(), "Other".to_string(), "Small".to_string(), 1),
        Err(ContractError::AlreadyExists)
    );
}
