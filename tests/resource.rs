use chershare::pricing::{ArithmeticOverflow, Pricing};
use chershare::resource::{Booking, BookingCreation, BookingError, Resource, ResourceInitParams};

fn params(pricing: Pricing, min_duration_ms: u64) -> ResourceInitParams {
    ResourceInitParams {
        title: "Meeting room".to_string(),
        description: "Ten seats, a projector".to_string(),
        image_urls: vec!["https://img.example/1.png".to_string(), "https://img.example/2.png".to_string()],
        contact: "desk@example.org".to_string(),
        tags: vec!["room".to_string(), "projector".to_string(), "room".to_string()],
        pricing,
        min_duration_ms,
    }
}

fn flat(rate: u128, min_duration_ms: u64) -> Resource {
    Resource::init(params(Pricing::FlatRent { price_per_ms: rate }, min_duration_ms))
}

#[test]
fn booking_scenario_flat_rent() {
    let mut r = flat(1, 3_600_000);
    let first = r.book(0, 7_200_000, 7_200_000, "alice.near".to_string());
    assert_eq!(
        first,
        Ok(BookingCreation {
            id: 0,
            booker_account_id: "alice.near".to_string(),
            start: 0,
            end: 7_200_000,
            price: 7_200_000,
        })
    );
    assert_eq!(r.book(0, 1_800_000, 1_800_000, "bob.near".to_string()), Err(BookingError::DurationTooShort));
    let second = r.book(7_200_000, 10_800_000, 3_600_000, "bob.near".to_string()).unwrap();
    assert_eq!(second.id, 1);
    assert_eq!(second.price, 3_600_000);
    assert_eq!(
        r.book(3_600_000, 10_800_000, u128::MAX, "carol.near".to_string()),
        Err(BookingError::Collision)
    );
    assert_eq!(r.booking_count(), 2);
}

#[test]
fn empty_or_reversed_interval_is_invalid() {
    let mut r = flat(1, 0);
    r.book(100, 200, 100, "a".to_string()).unwrap();
    assert_eq!(r.book(300, 300, 1_000, "b".to_string()), Err(BookingError::InvalidInterval));
    assert_eq!(r.book(300, 250, 1_000, "b".to_string()), Err(BookingError::InvalidInterval));
    assert_eq!(r.booking_count(), 1);
    assert_eq!(r.book(200, 300, 100, "b".to_string()).map(|c| c.id), Ok(1));
}

#[test]
fn overlapping_requests_collide() {
    let mut r = flat(1, 0);
    r.book(100, 200, 100, "a".to_string()).unwrap();
    for (s, e) in [(120, 180), (100, 200), (50, 150), (150, 250), (0, 1_000), (199, 201), (99, 101)] {
        assert_eq!(r.book(s, e, u128::MAX, "b".to_string()), Err(BookingError::Collision), "{s}..{e}");
        assert_eq!(r.assert_no_booking_collision(s, e), Err(BookingError::Collision));
    }
    assert_eq!(r.booking_count(), 1);
}

#[test]
fn adjacent_requests_are_accepted() {
    let mut r = flat(1, 0);
    r.book(100, 200, 100, "a".to_string()).unwrap();
    assert_eq!(r.assert_no_booking_collision(200, 300), Ok(()));
    assert_eq!(r.assert_no_booking_collision(0, 100), Ok(()));
    assert!(r.book(200, 300, 100, "b".to_string()).is_ok());
    assert!(r.book(0, 100, 100, "c".to_string()).is_ok());
    assert!(r.book(300, 301, 1, "d".to_string()).is_ok());
    assert_eq!(r.booking_count(), 4);
}

#[test]
fn a_gap_between_bookings_can_be_filled_exactly() {
    let mut r = flat(2, 10);
    r.book(0, 100, 200, "a".to_string()).unwrap();
    r.book(300, 400, 200, "a".to_string()).unwrap();
    assert_eq!(r.book(90, 310, u128::MAX, "b".to_string()), Err(BookingError::Collision));
    assert_eq!(r.book(100, 301, u128::MAX, "b".to_string()), Err(BookingError::Collision));
    assert_eq!(r.book(99, 300, u128::MAX, "b".to_string()), Err(BookingError::Collision));
    let filled = r.book(100, 300, 400, "b".to_string()).unwrap();
    assert_eq!(filled.id, 2);
    assert_eq!(filled.price, 400);
}

#[test]
fn insufficient_funds_are_refused_with_the_amounts() {
    let mut r = flat(3, 0);
    assert_eq!(
        r.book(10, 20, 29, "a".to_string()),
        Err(BookingError::InsufficientFunds { required: 30, provided: 29 })
    );
    assert_eq!(r.booking_count(), 0);
    assert_eq!(r.get_booking(0), None);
}

#[test]
fn surplus_funds_do_not_change_the_price() {
    let mut r = flat(3, 0);
    let c = r.book(10, 20, 1_000, "a".to_string()).unwrap();
    assert_eq!(c.price, 30);
    assert_eq!(r.get_booking(0).map(|b| b.price), Some(30));
}

#[test]
fn price_overflow_refuses_the_booking() {
    let mut r = flat(u128::MAX, 0);
    assert_eq!(r.book(0, 2, u128::MAX, "a".to_string()), Err(BookingError::ArithmeticOverflow));
    assert_eq!(r.get_quote(0, 2), Err(ArithmeticOverflow));
    assert_eq!(r.booking_count(), 0);
}

#[test]
fn checks_run_in_order() {
    let mut r = flat(u128::MAX, 5);
    r.book(0, 5, u128::MAX, "a".to_string()).unwrap_err();
    let mut cheap = flat(1, 5);
    cheap.book(0, 10, 10, "a".to_string()).unwrap();
    assert_eq!(cheap.book(3, 4, 0, "b".to_string()), Err(BookingError::DurationTooShort));
    assert_eq!(cheap.book(3, 9, 0, "b".to_string()), Err(BookingError::Collision));
    assert_eq!(cheap.book(10, 15, 0, "b".to_string()), Err(BookingError::InsufficientFunds { required: 5, provided: 0 }));
    assert_eq!(r.book(4, 3, 0, "b".to_string()), Err(BookingError::InvalidInterval));
}

#[test]
fn booking_records_are_kept_under_their_ids() {
    let mut r = Resource::init(params(
        Pricing::DecayingRefundRent { price_fixed_base: 5, price_per_ms: 2, refund_buffer: 100 },
        0,
    ));
    r.book(50, 60, 25, "x.near".to_string()).unwrap();
    r.book(10, 20, 25, "y.near".to_string()).unwrap();
    assert_eq!(
        r.get_booking(0),
        Some(&Booking { start: 50, end: 60, consumer_account_id: "x.near".to_string(), price: 25 })
    );
    assert_eq!(
        r.get_booking(1),
        Some(&Booking { start: 10, end: 20, consumer_account_id: "y.near".to_string(), price: 25 })
    );
    assert_eq!(r.get_booking(2), None);
}

#[test]
fn bookings_made_in_any_order_never_overlap() {
    let mut r = flat(0, 1);
    let mut seed: u64 = 12345;
    for _ in 0..400 {
        seed = seed.wrapping_mul(6364136223846793005).wrapping_add(1442695040888963407);
        let start = (seed >> 33) % 10_000;
        let len = 1 + (seed >> 20) % 300;
        let _ = r.book(start, start + len, 0, "z".to_string());
    }
    let n = r.booking_count();
    assert!(n > 10);
    for i in 0..n {
        for j in 0..n {
            if i != j {
                let a = r.get_booking(i).unwrap();
                let b = r.get_booking(j).unwrap();
                assert!(a.start >= b.end || b.start >= a.end);
            }
        }
    }
}

#[test]
fn init_reads_back_its_parameters() {
    let p = params(Pricing::FlatRent { price_per_ms: 9 }, 42);
    let r = Resource::init(p.clone());
    assert_eq!(r.get_title(), &p.title);
    assert_eq!(r.get_description(), &p.description);
    assert_eq!(r.get_contact(), &p.contact);
    assert_eq!(r.get_min_duration_ms(), 42);
    assert_eq!(r.get_tags(), &p.tags);
    assert_eq!(r.get_image_urls(), &p.image_urls);
    assert_eq!(r.get_pricing(), Pricing::FlatRent { price_per_ms: 9 });
    assert_eq!(r.booking_count(), 0);
}

#[test]
fn quote_matches_the_charged_price() {
    let mut r = Resource::init(params(
        Pricing::DecayingRefundRent { price_fixed_base: 1_000, price_per_ms: 3, refund_buffer: 10 },
        0,
    ));
    assert_eq!(r.get_quote(100, 200), Ok(1_300));
    assert_eq!(r.book(100, 200, 1_300, "q".to_string()).map(|c| c.price), Ok(1_300));
}

#[test]
fn greeting_is_fixed() {
    assert_eq!(Resource::test(), "hi, cool!");
}
