use vstd::prelude::*;

verus! {

/// A pricing policy over signed instants and signed amounts.
pub trait Pricing {
    /// The amount due for `[from, until)`.
    spec fn price_spec(&self, from: int, until: int) -> int;

    /// The amount paid back when a booking of `[from, until)` is cancelled at `now`.
    spec fn refund_spec(&self, from: int, until: int, now: int) -> int;

    fn get_price(&self, from: i64, until: i64) -> (r: i128)
        requires
            from <= until,
            i128::MIN <= self.price_spec(from as int, until as int) <= i128::MAX,
        ensures
            r == self.price_spec(from as int, until as int),
    ;

    fn get_refund(&self, from: i64, until: i64, now: i64) -> (r: i128)
        requires
            from <= until,
            i128::MIN <= self.refund_spec(from as int, until as int, now as int) <= i128::MAX,
        ensures
            r == self.refund_spec(from as int, until as int, now as int),
    ;
}

/// A flat rate per millisecond, refunded in full on cancellation.
#[derive(Debug, Clone, Copy, PartialEq, Eq, Structural)]
pub struct SimpleRent {
    pub price_per_ms: i128,
}

impl Pricing for SimpleRent {
    open spec fn price_spec(&self, from: int, until: int) -> int {
        (until - from) * self.price_per_ms
    }

    open spec fn refund_spec(&self, from: int, until: int, now: int) -> int {
        self.price_spec(from, until)
    }

    fn get_price(&self, from: i64, until: i64) -> (r: i128) {
        let duration = until as i128 - from as i128;
        duration * self.price_per_ms
    }

    fn get_refund(&self, from: i64, until: i64, now: i64) -> (r: i128) {
        let duration = until as i128 - from as i128;
        duration * self.price_per_ms
    }
}

/// A listed resource: its name, description and rent.
#[derive(Debug, Clone)]
pub struct Resource {
    pub name: String,
    pub description: String,
    pub pricing: SimpleRent,
}

/// Why the registry refused a request.
#[derive(Debug, Clone, Copy, PartialEq, Eq, Structural)]
pub enum ContractError {
    /// A resource with this id already exists.
    AlreadyExists,
}

/// A registry of resources by id.
pub struct Contract {
    resources: Vec<(String, Resource)>,
    contents: Ghost<Map<Seq<char>, Resource>>,
}

impl View for Contract {
    type V = Map<Seq<char>, Resource>;

    closed spec fn view(&self) -> Map<Seq<char>, Resource> {
        self.contents@
    }
}

impl Default for Contract {
    fn default() -> (r: Contract)
        ensures
            r.wf(),
            r@ == Map::<Seq<char>, Resource>::empty(),
    {
        Contract { resources: Vec::new(), contents: Ghost(Map::empty()) }
    }
}

impl Contract {
    /// The vector holds exactly the entries of the map.
    pub closed spec fn wf(&self) -> bool {
        &&& forall|j: int|
            0 <= j < self.resources@.len() ==> self@.contains_key(
                (#[trigger] self.resources@[j]).0@,
            ) && self@[self.resources@[j].0@] == self.resources@[j].1
        &&& forall|k: Seq<char>|
            #[trigger] self@.contains_key(k) ==> exists|j: int|
                0 <= j < self.resources@.len() && (#[trigger] self.resources@[j]).0@ == k
    }

    fn contains_id(&self, id: &String) -> (r: bool)
        requires
            self.wf(),
        ensures
            r == self@.contains_key(id@),
    {
        let mut i: usize = 0;
        while i < self.resources.len()
            invariant
                self.wf(),
                i <= self.resources@.len(),
                forall|j: int| 0 <= j < i ==> (#[trigger] self.resources@[j]).0@ != id@,
            decreases self.resources@.len() - i,
        {
            if self.resources[i].0.eq(id) {
                assert(self.resources@[i as int].0@ == id@);
                return true;
            }
            i = i + 1;
        }
        false
    }

    /// Lists a new resource under `id`; fails with `AlreadyExists`, changing
    /// nothing, when `id` is taken.
    pub fn create_resource(
        &mut self,
        id: String,
        name: String,
        description: String,
        price_per_ms: i128,
    ) -> (r: Result<(), ContractError>)
        requires
            old(self).wf(),
        ensures
            final(self).wf(),
            old(self)@.contains_key(id@) ==> r == Err::<(), ContractError>(
                ContractError::AlreadyExists,
            ) && final(self)@ == old(self)@,
            !old(self)@.contains_key(id@) ==> r is Ok && final(self)@ == old(self)@.insert(
                id@,
                Resource { name, description, pricing: SimpleRent { price_per_ms } },
            ),
    {
        if self.contains_id(&id) {
            return Err(ContractError::AlreadyExists);
        }
        let resource = Resource { name, description, pricing: SimpleRent { price_per_ms } };
        let ghost key = id@;
        let ghost old_resources = self.resources@;
        self.resources.push((id, resource));
        self.contents = Ghost(self.contents@.insert(key, resource));
        assert forall|j: int| 0 <= j < self.resources@.len() implies self@.contains_key(
            (#[trigger] self.resources@[j]).0@,
        ) && self@[self.resources@[j].0@] == self.resources@[j].1 by {
            if j < old_resources.len() {
                assert(old_resources[j] == self.resources@[j]);
                assert(old(self)@.contains_key(old_resources[j].0@));
            }
        }
        assert forall|k: Seq<char>| #[trigger] self@.contains_key(k) implies exists|j: int|
            0 <= j < self.resources@.len() && (#[trigger] self.resources@[j]).0@ == k by {
            if k == key {
                assert(self.resources@[old_resources.len() as int].0@ == k);
            } else {
                assert(old(self)@.contains_key(k));
                let j = choose|j: int| 0 <= j < old_resources.len() && (#[trigger] old_resources[j]).0@ == k;
                assert(self.resources@[j] == old_resources[j]);
            }
        }
        Ok(())
    }
}

} // verus!
