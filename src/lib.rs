//! Bookable resources: pricing policies, a ledger of non-overlapping
//! bookings with an ordered index of their boundaries, and the factory that
//! provisions resources as sub-accounts.
use vstd::prelude::*;

pub mod contract;
pub mod factory;
pub mod index;
pub mod pricing;
pub mod resource;

verus! {

} // verus!
