//! Version comparison as `std::cmp::Ordering`, and the reachability rule
//! that decides whether a commit's release is part of a target release.

use std::cmp::Ordering;
use std::str::FromStr;
use vstd::prelude::*;
use crate::text;
use crate::version::{KernelVersion, Order};
use crate::version;

verus! {

/// The `Ordering` that stands for `o`.
pub open spec fn as_ordering(o: Order) -> Ordering {
    match o {
        Order::Less => Ordering::Less,
        Order::Equal => Ordering::Equal,
        Order::Greater => Ordering::Greater,
    }
}

fn to_ordering(o: Order) -> (r: Ordering)
    ensures
        r == as_ordering(o),
{
    match o {
        Order::Less => Ordering::Less,
        Order::Equal => Ordering::Equal,
        Order::Greater => Ordering::Greater,
    }
}

impl KernelVersion {
    /// How this version compares with `other` (see `version::version_order`).
    pub fn cmp(&self, other: &Self) -> (r: Ordering)
        ensures
            r == as_ordering(version::version_order(self@, other@)),
    {
        to_ordering(self.order(other))
    }
}

impl PartialOrd for KernelVersion {
    fn partial_cmp(&self, other: &Self) -> (r: Option<Ordering>) {
        Some(KernelVersion::cmp(self, other))
    }
}

impl vstd::std_specs::cmp::PartialOrdSpecImpl for KernelVersion {
    open spec fn obeys_partial_cmp_spec() -> bool {
        true
    }

    open spec fn partial_cmp_spec(&self, other: &Self) -> Option<Ordering> {
        Some(as_ordering(version::version_order(self@, other@)))
    }
}

impl FromStr for KernelVersion {
    type Err = ();

    fn from_str(version: &str) -> (r: Result<Self, ()>)
        ensures
            r matches Ok(v) && v@ == version::parse_version(version@),
    {
        Ok(KernelVersion::parse(version))
    }
}

/// Compares two version strings (see `version::text_order`).
pub fn compare_kernel_versions(v1: &str, v2: &str) -> (r: Ordering)
    ensures
        r == as_ordering(version::text_order(v1@, v2@)),
{
    if text::str_eq(v1, v2) {
        return Ordering::Equal;
    }
    let a = KernelVersion::parse(v1);
    let b = KernelVersion::parse(v2);
    a.cmp(&b)
}

/// Whether version `candidate` is contained in a tree at version `target`
/// (see `version::reachable`).
pub fn version_reachable(candidate: &str, target: &str) -> (r: bool)
    ensures
        r == version::reachable(candidate@, target@),
{
    let c = text::chars_of(candidate);
    if c.len() == 0 || (c.len() == 1 && c[0] == '0') {
        assert(c.len() == 1 && c[0] == '0' ==> c@ =~= seq!['0']);
        return true;
    }
    assert(c@ != seq!['0']) by {
        if c@ == seq!['0'] {
            assert(c@.len() == 1 && c@[0] == '0');
        }
    }
    let not_after = match compare_kernel_versions(candidate, target) {
        Ordering::Greater => false,
        _ => true,
    };
    if version::version_is_mainline(candidate) {
        not_after
    } else {
        let m1 = version::kernel_version_major(candidate);
        let m2 = version::kernel_version_major(target);
        m1 == m2 && not_after
    }
}

} // verus!
