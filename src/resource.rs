use vstd::prelude::*;

use crate::index::BoundaryIndex;
use crate::pricing::{ArithmeticOverflow, Pricing};

verus! {

/// What a provider supplies when a resource is set up.
#[derive(Debug, Clone)]
pub struct ResourceInitParams {
    pub title: String,
    pub description: String,
    pub image_urls: Vec<String>,
    pub contact: String,
    pub tags: Vec<String>,
    pub pricing: Pricing,
    pub min_duration_ms: u64,
}

/// A committed reservation of the half-open interval `[start, end)`.
#[derive(Debug, Clone, PartialEq, Eq)]
pub struct Booking {
    pub start: u64,
    pub end: u64,
    pub consumer_account_id: String,
    pub price: u128,
}

/// The record of a successful booking, as published to indexers.
#[derive(Debug, Clone, PartialEq, Eq)]
pub struct BookingCreation {
    pub id: u128,
    pub booker_account_id: String,
    pub start: u64,
    pub end: u64,
    pub price: u128,
}

/// Why a booking request was rejected. A rejected request changes nothing.
#[derive(Debug, Clone, Copy, PartialEq, Eq, Structural)]
pub enum BookingError {
    /// `end` is not after `start`.
    InvalidInterval,
    /// The interval is shorter than the resource's minimum duration.
    DurationTooShort,
    /// The interval overlaps a committed booking.
    Collision,
    /// The price of the interval does not fit in 128 bits.
    ArithmeticOverflow,
    /// The attached funds do not cover the price.
    InsufficientFunds { required: u128, provided: u128 },
}

/// Whether a booking and the interval `[start, end)` share an instant.
pub open spec fn overlaps(b: Booking, start: int, end: int) -> bool {
    b.start < end && start < b.end
}

/// Whether `[start, end)` overlaps any of `bookings`.
pub open spec fn collides(bookings: Seq<Booking>, start: int, end: int) -> bool {
    exists|i: int| 0 <= i < bookings.len() && overlaps(#[trigger] bookings[i], start, end)
}

/// Two bookings that do not share an instant.
pub open spec fn disjoint(a: Booking, b: Booking) -> bool {
    a.start >= b.end || b.start >= a.end
}

/// A bookable resource: its description, its pricing policy, and the ledger of
/// committed bookings with the index of their boundaries.
pub struct Resource {
    title: String,
    description: String,
    pricing: Pricing,
    min_duration_ms: u64,
    contact: String,
    image_urls: Vec<String>,
    tags: Vec<String>,
    next_booking_id: u128,
    blocker_starts: BoundaryIndex,
    blocker_ends: BoundaryIndex,
    bookings: Vec<Booking>,
}

impl Resource {
    /// The committed bookings; a booking's id is its position.
    pub closed spec fn bookings_spec(&self) -> Seq<Booking> {
        self.bookings@
    }

    pub closed spec fn pricing_spec(&self) -> Pricing {
        self.pricing
    }

    pub closed spec fn min_duration_spec(&self) -> u64 {
        self.min_duration_ms
    }

    pub closed spec fn title_spec(&self) -> String {
        self.title
    }

    pub closed spec fn description_spec(&self) -> String {
        self.description
    }

    pub closed spec fn contact_spec(&self) -> String {
        self.contact
    }

    pub closed spec fn image_urls_spec(&self) -> Vec<String> {
        self.image_urls
    }

    pub closed spec fn tags_spec(&self) -> Vec<String> {
        self.tags
    }

    /// Everything but the ledger agrees between `self` and `other`.
    pub open spec fn same_listing(&self, other: &Resource) -> bool {
        &&& self.title_spec() == other.title_spec()
        &&& self.description_spec() == other.description_spec()
        &&& self.contact_spec() == other.contact_spec()
        &&& self.image_urls_spec() == other.image_urls_spec()
        &&& self.tags_spec() == other.tags_spec()
        &&& self.pricing_spec() == other.pricing_spec()
        &&& self.min_duration_spec() == other.min_duration_spec()
    }

    /// The resource as `init` makes it from `p`: the listing is `p`'s and the
    /// ledger is empty.
    pub open spec fn fresh_from(&self, p: ResourceInitParams) -> bool {
        &&& self.title_spec() == p.title
        &&& self.description_spec() == p.description
        &&& self.contact_spec() == p.contact
        &&& self.image_urls_spec() == p.image_urls
        &&& self.tags_spec() == p.tags
        &&& self.pricing_spec() == p.pricing
        &&& self.min_duration_spec() == p.min_duration_ms
        &&& self.bookings_spec() == Seq::<Booking>::empty()
    }

    /// The ledger invariant: ids are positions, every booking is a non-empty
    /// interval, no two bookings overlap, and each index maps exactly the
    /// bookings' starts (resp. ends) to their ids.
    pub closed spec fn wf(&self) -> bool {
        let b = self.bookings@;
        &&& self.blocker_starts.wf()
        &&& self.blocker_ends.wf()
        &&& self.next_booking_id == b.len()
        &&& forall|i: int| 0 <= i < b.len() ==> (#[trigger] b[i]).start < b[i].end
        &&& forall|i: int, j: int|
            0 <= i < b.len() && 0 <= j < b.len() && i != j ==> disjoint(
                #[trigger] b[i],
                #[trigger] b[j],
            )
        &&& forall|i: int|
            0 <= i < b.len() ==> self.blocker_starts@.contains_key((#[trigger] b[i]).start)
                && self.blocker_starts@[b[i].start] == i
        &&& forall|i: int|
            0 <= i < b.len() ==> self.blocker_ends@.contains_key((#[trigger] b[i]).end)
                && self.blocker_ends@[b[i].end] == i
        &&& forall|k: u64|
            #[trigger] self.blocker_starts@.contains_key(k) ==> self.blocker_starts@[k] < b.len()
                && b[self.blocker_starts@[k] as int].start == k
        &&& forall|k: u64|
            #[trigger] self.blocker_ends@.contains_key(k) ==> self.blocker_ends@[k] < b.len()
                && b[self.blocker_ends@[k] as int].end == k
    }

    /// The outcome that `book(start, end, attached_deposit, _)` owes: the
    /// price to charge, or the first check that fails, in this order:
    /// interval, duration, collision, price, funds.
    pub open spec fn booking_check(&self, start: u64, end: u64, attached_deposit: u128) -> Result<
        u128,
        BookingError,
    > {
        let price = self.pricing_spec().price_of(start as int, end as int);
        if end <= start {
            Err(BookingError::InvalidInterval)
        } else if end - start < self.min_duration_spec() {
            Err(BookingError::DurationTooShort)
        } else if collides(self.bookings_spec(), start as int, end as int) {
            Err(BookingError::Collision)
        } else if price > u128::MAX {
            Err(BookingError::ArithmeticOverflow)
        } else if attached_deposit < price {
            Err(BookingError::InsufficientFunds { required: price as u128, provided: attached_deposit })
        } else {
            Ok(price as u128)
        }
    }

    /// Sets up a resource with the listing of `init_params` and no bookings.
    pub fn init(init_params: ResourceInitParams) -> (r: Self)
        ensures
            r.wf(),
            r.fresh_from(init_params),
    {
        Resource {
            title: init_params.title,
            description: init_params.description,
            pricing: init_params.pricing,
            contact: init_params.contact,
            image_urls: init_params.image_urls,
            tags: init_params.tags,
            blocker_starts: BoundaryIndex::new(),
            blocker_ends: BoundaryIndex::new(),
            bookings: Vec::new(),
            min_duration_ms: init_params.min_duration_ms,
            next_booking_id: 0,
        }
    }

    /// A fixed greeting, for checking that a deployed resource answers.
    pub fn test() -> (r: String)
        ensures
            r@ == "hi, cool!"@,
    {
        String::from_str("hi, cool!")
    }

    /// `Ok` exactly when `[start, end)` overlaps no committed booking, else
    /// `Collision`. Two probes of the boundary index decide it: the booking
    /// whose end is the first after `start` must not start before `end`, and
    /// the booking whose start is the last before `end` must not end after
    /// `start`. Touching intervals do not collide.
    pub fn assert_no_booking_collision(&self, start: u64, end: u64) -> (r: Result<(), BookingError>)
        requires
            self.wf(),
            start < end,
        ensures
            r is Ok <==> !collides(self.bookings_spec(), start as int, end as int),
            r is Err ==> r == Err::<(), BookingError>(BookingError::Collision),
    {
        let ghost b = self.bookings@;
        let count = self.bookings.len();
        if let Some(right_end) = self.blocker_ends.higher(start) {
            if let Some(id) = self.blocker_ends.get(right_end) {
                assert(self.blocker_ends@.contains_key(right_end));
                assert(id < count);
                let booking = &self.bookings[id as usize];
                assert(*booking == b[id as int]);
                if booking.start < end {
                    assert(overlaps(b[id as int], start as int, end as int));
                    return Err(BookingError::Collision);
                }
                proof {
                    assert forall|j: int| 0 <= j < b.len() implies !overlaps(
                        #[trigger] b[j],
                        start as int,
                        end as int,
                    ) by {
                        if overlaps(b[j], start as int, end as int) {
                            assert(self.blocker_ends@.contains_key(b[j].end));
                            if j != id as int {
                                assert(disjoint(b[j], b[id as int]));
                            }
                        }
                    }
                }
            }
        } else {
            assert forall|j: int| 0 <= j < b.len() implies !overlaps(
                #[trigger] b[j],
                start as int,
                end as int,
            ) by {
                assert(self.blocker_ends@.contains_key(b[j].end));
            }
        }
        if let Some(left_start) = self.blocker_starts.lower(end) {
            if let Some(id) = self.blocker_starts.get(left_start) {
                assert(self.blocker_starts@.contains_key(left_start));
                assert(id < count);
                let booking = &self.bookings[id as usize];
                assert(*booking == b[id as int]);
                if booking.end > start {
                    assert(overlaps(b[id as int], start as int, end as int));
                    return Err(BookingError::Collision);
                }
            }
        }
        Ok(())
    }

    /// Books `[start, end)` for `signer_account_id`, who attached
    /// `attached_deposit`. On success the booking gets the next id, is charged
    /// the price of the interval (funds beyond it are kept), and its record is
    /// returned; on failure nothing changes.
    pub fn book(
        &mut self,
        start: u64,
        end: u64,
        attached_deposit: u128,
        signer_account_id: String,
    ) -> (r: Result<BookingCreation, BookingError>)
        requires
            old(self).wf(),
        ensures
            final(self).wf(),
            final(self).same_listing(old(self)),
            match old(self).booking_check(start, end, attached_deposit) {
                Err(e) => r == Err::<BookingCreation, BookingError>(e) && *final(self) == *old(
                    self,
                ),
                Ok(price) => {
                    &&& r == Ok::<BookingCreation, BookingError>(
                        BookingCreation {
                            id: old(self).bookings_spec().len() as u128,
                            booker_account_id: signer_account_id,
                            start,
                            end,
                            price,
                        },
                    )
                    &&& final(self).bookings_spec() == old(self).bookings_spec().push(
                        Booking { start, end, consumer_account_id: signer_account_id, price },
                    )
                },
            },
    {
        if end <= start {
            return Err(BookingError::InvalidInterval);
        }
        let duration = end - start;
        if duration < self.min_duration_ms {
            return Err(BookingError::DurationTooShort);
        }
        if let Err(e) = self.assert_no_booking_collision(start, end) {
            return Err(e);
        }
        let price = match self.pricing.get_price(start, end) {
            Ok(p) => p,
            Err(ArithmeticOverflow) => return Err(BookingError::ArithmeticOverflow),
        };
        if attached_deposit < price {
            return Err(BookingError::InsufficientFunds { required: price, provided: attached_deposit });
        }
        let ghost b = self.bookings@;
        proof {
            assert(!self.blocker_starts@.contains_key(start)) by {
                if self.blocker_starts@.contains_key(start) {
                    let i = self.blocker_starts@[start] as int;
                    assert(overlaps(b[i], start as int, end as int));
                }
            }
            assert(!self.blocker_ends@.contains_key(end)) by {
                if self.blocker_ends@.contains_key(end) {
                    let i = self.blocker_ends@[end] as int;
                    assert(overlaps(b[i], start as int, end as int));
                }
            }
        }
        let count = self.bookings.len();
        assert(count < u128::MAX);
        let booking_id = self.next_booking_id;
        self.next_booking_id = self.next_booking_id + 1;
        let booking = Booking {
            start,
            end,
            consumer_account_id: signer_account_id.clone(),
            price,
        };
        self.bookings.push(booking);
        self.blocker_starts.insert(start, booking_id);
        self.blocker_ends.insert(end, booking_id);
        proof {
            let nb = self.bookings@;
            assert(nb.len() == b.len() + 1);
            assert forall|i: int, j: int|
                0 <= i < nb.len() && 0 <= j < nb.len() && i != j implies disjoint(
                #[trigger] nb[i],
                #[trigger] nb[j],
            ) by {
                if i == b.len() {
                    assert(!overlaps(b[j], start as int, end as int));
                } else if j == b.len() {
                    assert(!overlaps(b[i], start as int, end as int));
                } else {
                    assert(disjoint(b[i], b[j]));
                }
            }
            assert forall|k: u64| #[trigger]
                self.blocker_starts@.contains_key(k) implies self.blocker_starts@[k] < nb.len()
                && nb[self.blocker_starts@[k] as int].start == k by {
                if k != start {
                    assert(old(self).blocker_starts@.contains_key(k));
                }
            }
            assert forall|k: u64| #[trigger]
                self.blocker_ends@.contains_key(k) implies self.blocker_ends@[k] < nb.len()
                && nb[self.blocker_ends@[k] as int].end == k by {
                if k != end {
                    assert(old(self).blocker_ends@.contains_key(k));
                }
            }
            assert forall|i: int| 0 <= i < nb.len() implies self.blocker_starts@.contains_key(
                (#[trigger] nb[i]).start,
            ) && self.blocker_starts@[nb[i].start] == i by {
                if i < b.len() {
                    assert(b[i].start != start) by {
                        assert(!overlaps(b[i], start as int, end as int));
                    }
                }
            }
            assert forall|i: int| 0 <= i < nb.len() implies self.blocker_ends@.contains_key(
                (#[trigger] nb[i]).end,
            ) && self.blocker_ends@[nb[i].end] == i by {
                if i < b.len() {
                    assert(b[i].end != end) by {
                        assert(!overlaps(b[i], start as int, end as int));
                    }
                }
            }
        }
        Ok(
            BookingCreation {
                id: booking_id,
                booker_account_id: signer_account_id,
                start,
                end,
                price,
            },
        )
    }

    pub fn get_title(&self) -> (r: &String)
        ensures
            *r == self.title_spec(),
    {
        &self.title
    }

    pub fn get_description(&self) -> (r: &String)
        ensures
            *r == self.description_spec(),
    {
        &self.description
    }

    pub fn get_contact(&self) -> (r: &String)
        ensures
            *r == self.contact_spec(),
    {
        &self.contact
    }

    pub fn get_image_urls(&self) -> (r: &Vec<String>)
        ensures
            *r == self.image_urls_spec(),
    {
        &self.image_urls
    }

    pub fn get_tags(&self) -> (r: &Vec<String>)
        ensures
            *r == self.tags_spec(),
    {
        &self.tags
    }

    pub fn get_pricing(&self) -> (r: Pricing)
        ensures
            r == self.pricing_spec(),
    {
        self.pricing
    }

    pub fn get_min_duration_ms(&self) -> (r: u64)
        ensures
            r == self.min_duration_spec(),
    {
        self.min_duration_ms
    }

    /// The number of committed bookings, which is also the next booking id.
    pub fn booking_count(&self) -> (r: u128)
        requires
            self.wf(),
        ensures
            r == self.bookings_spec().len(),
    {
        self.next_booking_id
    }

    /// The booking with id `id`, if there is one.
    pub fn get_booking(&self, id: u128) -> (r: Option<&Booking>)
        ensures
            id < self.bookings_spec().len() ==> r == Some(&self.bookings_spec()[id as int]),
            id >= self.bookings_spec().len() ==> r is None,
    {
        if id < self.bookings.len() as u128 {
            Some(&self.bookings[id as usize])
        } else {
            None
        }
    }

    /// The price that booking `[start, end)` would be charged.
    pub fn get_quote(&self, start: u64, end: u64) -> (r: Result<u128, ArithmeticOverflow>)
        requires
            start <= end,
        ensures
            r is Ok <==> self.pricing_spec().price_of(start as int, end as int) <= u128::MAX,
            r matches Ok(p) ==> p == self.pricing_spec().price_of(start as int, end as int),
    {
        self.pricing.get_price(start, end)
    }
}

/// No two committed bookings of a resource overlap, whatever the order in
/// which they were made.
pub proof fn lemma_bookings_never_overlap(r: &Resource, i: int, j: int)
    requires
        r.wf(),
        0 <= i < r.bookings_spec().len(),
        0 <= j < r.bookings_spec().len(),
        i != j,
    ensures
        disjoint(r.bookings_spec()[i], r.bookings_spec()[j]),
{
    assert(disjoint(r.bookings@[i], r.bookings@[j]));
}

/// Every committed booking is a non-empty interval: it starts before it ends.
pub proof fn lemma_bookings_are_nonempty(r: &Resource, i: int)
    requires
        r.wf(),
        0 <= i < r.bookings_spec().len(),
    ensures
        r.bookings_spec()[i].start < r.bookings_spec()[i].end,
{
    assert(r.bookings@[i].start < r.bookings@[i].end);
}

/// A well-formed request that overlaps a committed booking on either side by
/// a positive amount (one of its boundaries lies strictly inside the request)
/// is refused as a collision.
pub proof fn lemma_overlap_on_either_side_is_refused(
    r: &Resource,
    i: int,
    start: u64,
    end: u64,
    attached_deposit: u128,
)
    requires
        r.wf(),
        0 <= i < r.bookings_spec().len(),
        start < end,
        end - start >= r.min_duration_spec(),
        (start < r.bookings_spec()[i].start < end) || (start < r.bookings_spec()[i].end < end),
    ensures
        r.booking_check(start, end, attached_deposit) == Err::<u128, BookingError>(
            BookingError::Collision,
        ),
{
    lemma_bookings_are_nonempty(r, i);
    assert(overlaps(r.bookings_spec()[i], start as int, end as int));
}

/// A well-formed request that overlaps a committed booking by any positive
/// amount (inside it, around it, or across either of its ends) is refused as
/// a collision.
pub proof fn lemma_overlap_is_refused(
    r: &Resource,
    i: int,
    start: u64,
    end: u64,
    attached_deposit: u128,
)
    requires
        0 <= i < r.bookings_spec().len(),
        start < end,
        end - start >= r.min_duration_spec(),
        overlaps(r.bookings_spec()[i], start as int, end as int),
    ensures
        r.booking_check(start, end, attached_deposit) == Err::<u128, BookingError>(
            BookingError::Collision,
        ),
{
}

/// Intervals that only touch (one ends where the other starts) do not
/// overlap, so back-to-back bookings never collide.
pub proof fn lemma_adjacent_is_not_collision(b: Booking, start: u64, end: u64)
    requires
        b.start < b.end,
        start < end,
        end == b.start || start == b.end,
    ensures
        !overlaps(b, start as int, end as int),
{
}

} // verus!
