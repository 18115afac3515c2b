//! How jobs compare: two jobs are the same job if they are for the same
//! service under the same host name, and the job that was checked longer ago
//! is the greater one, a job that was never checked the greatest of all.
use crate::job::HealthCheck;
use core::cmp::Ordering;
use vstd::prelude::*;
use vstd::std_specs::cmp::{PartialEqSpecImpl, PartialOrdSpecImpl};

verus! {

impl PartialEq for HealthCheck {
    fn eq(&self, other: &Self) -> (same: bool) {
        self.hostname == other.hostname && self.service == other.service
    }
}

impl PartialEqSpecImpl for HealthCheck {
    open spec fn obeys_eq_spec() -> bool {
        true
    }

    open spec fn eq_spec(&self, other: &Self) -> bool {
        self.hostname@ == other.hostname@ && self.service == other.service
    }
}

impl PartialOrd for HealthCheck {
    fn partial_cmp(&self, other: &Self) -> (order: Option<Ordering>) {
        if self.is_after(other) {
            Some(Ordering::Less)
        } else if other.is_after(self) {
            Some(Ordering::Greater)
        } else {
            Some(Ordering::Equal)
        }
    }
}

impl PartialOrdSpecImpl for HealthCheck {
    open spec fn obeys_partial_cmp_spec() -> bool {
        true
    }

    open spec fn partial_cmp_spec(&self, other: &Self) -> Option<Ordering> {
        if self@.priority() > other@.priority() {
            Some(Ordering::Less)
        } else if self@.priority() < other@.priority() {
            Some(Ordering::Greater)
        } else {
            Some(Ordering::Equal)
        }
    }
}

} // verus!
