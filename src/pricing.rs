use vstd::prelude::*;
use vstd::arithmetic::div_mod::{
    lemma_div_is_ordered,
    lemma_fundamental_div_mod,
    lemma_hoist_over_denominator,
    lemma_div_multiples_vanish,
};
use vstd::arithmetic::mul::lemma_mul_inequality;

verus! {

/// A price or refund did not fit in 128 bits.
#[derive(Debug, Clone, Copy, PartialEq, Eq, Structural)]
pub struct ArithmeticOverflow;

/// Parameters of a rent with a booking fee and a cancellation refund that
/// decays over a window before the booked slot starts.
#[derive(Debug, Clone, Copy, PartialEq, Eq, Structural)]
pub struct PricingParams {
    pub price_per_ms: u128,
    pub price_per_booking: u128,
    pub full_refund_period_ms: u64,
}

/// A pricing policy: maps a booked interval `[from, until)` to the amount due,
/// and a cancellation instant to the amount paid back.
#[derive(Debug, Clone, Copy, PartialEq, Eq, Structural)]
pub enum Pricing {
    /// `price_per_ms` for each millisecond; cancellation always refunds in full.
    FlatRent { price_per_ms: u128 },
    /// A fixed fee per booking plus `price_per_ms` for each millisecond.
    /// Cancelling `refund_buffer` ms or more before the start refunds in full;
    /// closer to the start the refund shrinks linearly with the remaining
    /// distance (`price * distance / refund_buffer`, rounded down); from the
    /// start on nothing is refunded.
    DecayingRefundRent { price_fixed_base: u128, price_per_ms: u128, refund_buffer: u64 },
}

impl Pricing {
    /// The amount due for `[from, until)`.
    pub open spec fn price_of(self, from: int, until: int) -> int {
        match self {
            Pricing::FlatRent { price_per_ms } => (until - from) * price_per_ms,
            Pricing::DecayingRefundRent { price_fixed_base, price_per_ms, .. } =>
                price_fixed_base + (until - from) * price_per_ms,
        }
    }

    /// The amount paid back when a booking of `[from, until)` is cancelled at `now`.
    pub open spec fn refund_of(self, from: int, until: int, now: int) -> int {
        match self {
            Pricing::FlatRent { .. } => self.price_of(from, until),
            Pricing::DecayingRefundRent { refund_buffer, .. } => {
                if now < from {
                    let distance = from - now;
                    if distance < refund_buffer {
                        self.price_of(from, until) * distance / (refund_buffer as int)
                    } else {
                        self.price_of(from, until)
                    }
                } else {
                    0
                }
            },
        }
    }

    /// Builds the decaying-refund policy that `init_params` describe.
    pub fn new(init_params: PricingParams) -> (r: Self)
        ensures
            r == (Pricing::DecayingRefundRent {
                price_fixed_base: init_params.price_per_booking,
                price_per_ms: init_params.price_per_ms,
                refund_buffer: init_params.full_refund_period_ms,
            }),
    {
        Pricing::DecayingRefundRent {
            price_fixed_base: init_params.price_per_booking,
            price_per_ms: init_params.price_per_ms,
            refund_buffer: init_params.full_refund_period_ms,
        }
    }

    /// The amount due for `[from, until)`, or `ArithmeticOverflow` when it
    /// exceeds `u128::MAX`.
    pub fn get_price(&self, from: u64, until: u64) -> (r: Result<u128, ArithmeticOverflow>)
        requires
            from <= until,
        ensures
            r is Ok <==> self.price_of(from as int, until as int) <= u128::MAX,
            r matches Ok(p) ==> p == self.price_of(from as int, until as int),
    {
        let duration = (until - from) as u128;
        match *self {
            Pricing::FlatRent { price_per_ms } => match duration.checked_mul(price_per_ms) {
                Some(p) => Ok(p),
                None => Err(ArithmeticOverflow),
            },
            Pricing::DecayingRefundRent { price_fixed_base, price_per_ms, .. } => {
                match duration.checked_mul(price_per_ms) {
                    Some(variable) => match price_fixed_base.checked_add(variable) {
                        Some(p) => Ok(p),
                        None => Err(ArithmeticOverflow),
                    },
                    None => {
                        assert(duration * price_per_ms <= price_fixed_base + duration
                            * price_per_ms);
                        Err(ArithmeticOverflow)
                    },
                }
            },
        }
    }

    /// The amount paid back when a booking of `[from, until)` is cancelled at
    /// `now`. A decaying rent cancelled at or after the start refunds 0
    /// whatever the price; otherwise it fails only where the price itself
    /// overflows.
    pub fn get_refund_amount(&self, from: u64, until: u64, now: u64) -> (r: Result<
        u128,
        ArithmeticOverflow,
    >)
        requires
            from <= until,
        ensures
            r is Ok <==> (self.price_of(from as int, until as int) <= u128::MAX || (
            self is DecayingRefundRent && from <= now)),
            self is DecayingRefundRent && from <= now ==> r == Ok::<u128, ArithmeticOverflow>(0),
            r matches Ok(a) ==> a == self.refund_of(from as int, until as int, now as int),
            r matches Ok(a) ==> a <= self.price_of(from as int, until as int),
    {
        proof {
            lemma_refund_at_most_price(*self, from as int, until as int, now as int);
        }
        if let Pricing::DecayingRefundRent { .. } = *self {
            if from <= now {
                return Ok(0);
            }
        }
        let price_payed = match self.get_price(from, until) {
            Ok(p) => p,
            Err(e) => return Err(e),
        };
        match *self {
            Pricing::FlatRent { .. } => Ok(price_payed),
            Pricing::DecayingRefundRent { refund_buffer, .. } => {
                if now < from {
                    let distance = from - now;
                    if distance < refund_buffer {
                        Ok(scale_down(price_payed, distance, refund_buffer))
                    } else {
                        Ok(price_payed)
                    }
                } else {
                    Ok(0)
                }
            },
        }
    }
}

/// `price * distance / window`, rounded down, without an intermediate product
/// that could exceed 128 bits.
fn scale_down(price: u128, distance: u64, window: u64) -> (r: u128)
    requires
        distance < window,
    ensures
        r == price * distance / (window as int),
{
    let w = window as u128;
    let d = distance as u128;
    let q = price / w;
    let m = price % w;
    proof {
        let (p, di, wi, qi, mi) = (price as int, d as int, w as int, q as int, m as int);
        lemma_fundamental_div_mod(p, wi);
        assert(qi * di <= qi * wi) by (nonlinear_arith)
            requires
                0 <= qi,
                di < wi,
        ;
        assert(qi * wi <= p) by (nonlinear_arith)
            requires
                p == wi * qi + mi,
                0 <= mi,
        ;
        assert(mi * di < wi * wi) by (nonlinear_arith)
            requires
                0 <= mi < wi,
                0 <= di < wi,
        ;
        assert(wi * wi <= u64::MAX as int * u64::MAX as int) by (nonlinear_arith)
            requires
                0 < wi <= u64::MAX,
        ;
        assert(p * di == (mi * di) + (qi * di) * wi) by (nonlinear_arith)
            requires
                p == wi * qi + mi,
        ;
        lemma_hoist_over_denominator(mi * di, qi * di, wi as nat);
        assert((mi * di) / wi <= mi) by {
            assert(mi * di <= mi * wi) by (nonlinear_arith)
                requires
                    0 <= mi,
                    di < wi,
            ;
            lemma_div_is_ordered(mi * di, mi * wi, wi);
            assert(mi * wi == wi * mi) by (nonlinear_arith);
            lemma_div_multiples_vanish(mi, wi);
        }
        assert(qi * di + mi <= p) by (nonlinear_arith)
            requires
                p == wi * qi + mi,
                0 <= di < wi,
                0 <= qi,
        ;
    }
    q * d + (m * d) / w
}

/// A refund never exceeds the price it is refunding.
pub proof fn lemma_refund_at_most_price(pricing: Pricing, from: int, until: int, now: int)
    requires
        from <= until,
    ensures
        0 <= pricing.refund_of(from, until, now) <= pricing.price_of(from, until),
{
    assert(0 <= (until - from) * pricing_rate(pricing)) by (nonlinear_arith)
        requires
            from <= until,
            0 <= pricing_rate(pricing),
    ;
    if let Pricing::DecayingRefundRent { refund_buffer, .. } = pricing {
        if now < from && from - now < refund_buffer {
            let p = pricing.price_of(from, until);
            let d = from - now;
            let w = refund_buffer as int;
            lemma_mul_inequality(d, w, p);
            lemma_div_is_ordered(d * p, w * p, w);
            lemma_div_multiples_vanish(p, w);
            assert(p * d == d * p) by (nonlinear_arith);
            assert(0 <= p * d) by (nonlinear_arith)
                requires
                    0 <= p,
                    0 <= d,
            ;
            vstd::arithmetic::div_mod::lemma_div_pos_is_pos(p * d, w);
        }
    }
}

/// Cancelling later never pays back more: the refund does not increase as the
/// cancellation instant moves towards (and past) the start of the booking.
pub proof fn lemma_refund_non_increasing(
    pricing: Pricing,
    from: int,
    until: int,
    earlier: int,
    later: int,
)
    requires
        from <= until,
        earlier <= later,
    ensures
        pricing.refund_of(from, until, later) <= pricing.refund_of(from, until, earlier),
{
    lemma_refund_at_most_price(pricing, from, until, earlier);
    lemma_refund_at_most_price(pricing, from, until, later);
    if let Pricing::DecayingRefundRent { refund_buffer, .. } = pricing {
        let p = pricing.price_of(from, until);
        let w = refund_buffer as int;
        if later < from && from - later < w && from - earlier < w {
            let (d1, d2) = (from - earlier, from - later);
            assert(p * d2 <= p * d1) by (nonlinear_arith)
                requires
                    0 <= p,
                    d2 <= d1,
            ;
            lemma_div_is_ordered(p * d2, p * d1, w);
        }
    }
}

/// Cancelling at least the refund window before the start refunds the whole
/// price. (With an empty window, cancelling exactly at the start is the
/// no-refund case instead.)
pub proof fn lemma_full_refund_before_window(pricing: Pricing, from: int, until: int, now: int)
    requires
        pricing is DecayingRefundRent,
        now + pricing->refund_buffer <= from,
        now < from,
    ensures
        pricing.refund_of(from, until, now) == pricing.price_of(from, until),
{
}

/// Cancelling at or after the start of the booking refunds nothing.
pub proof fn lemma_no_refund_after_start(pricing: Pricing, from: int, until: int, now: int)
    requires
        pricing is DecayingRefundRent,
        from <= now,
    ensures
        pricing.refund_of(from, until, now) == 0,
{
}

/// The per-millisecond rate of a policy.
pub open spec fn pricing_rate(pricing: Pricing) -> int {
    match pricing {
        Pricing::FlatRent { price_per_ms } => price_per_ms as int,
        Pricing::DecayingRefundRent { price_per_ms, .. } => price_per_ms as int,
    }
}

} // verus!
