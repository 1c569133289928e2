use grondig::ordering::{compare_kernel_versions, version_reachable};
use grondig::version::{kernel_version_major, version_is_mainline, KernelVersion, Order};
use std::cmp::Ordering;
use std::str::FromStr;

#[test]
fn parses_plain_release() {
    let v = KernelVersion::parse("6.12");
    assert_eq!(v.components, vec![6, 12]);
    assert_eq!(v.rc_num, None);
    assert!(!v.is_queue);
    assert!(!v.is_rc_by_name);
    assert!(!v.is_rc());
    assert!(v.is_mainline());
    assert_eq!(v.major_version(), "6.12");
}

#[test]
fn parses_stable_release() {
    let v = KernelVersion::parse("6.12.5");
    assert_eq!(v.components, vec![6, 12, 5]);
    assert!(!v.is_mainline());
    assert_eq!(v.major_version(), "6.12");
}

#[test]
fn parses_release_candidate() {
    let v = KernelVersion::parse("6.13-rc3");
    assert_eq!(v.components, vec![6, 13]);
    assert_eq!(v.rc_num, Some(3));
    assert!(v.is_rc_by_name);
    assert!(v.is_rc());
    assert!(v.is_mainline());
}

#[test]
fn bare_rc_suffix_counts_as_rc_zero() {
    let v = KernelVersion::parse("6.13-rc");
    assert_eq!(v.rc_num, Some(0));
    assert!(v.is_rc());
}

#[test]
fn rc_suffix_without_number() {
    let v = KernelVersion::parse("6.13-rcX");
    assert_eq!(v.rc_num, None);
    assert!(v.is_rc_by_name);
    assert!(v.is_rc());
    assert!(v.is_mainline());
}

#[test]
fn rc_number_accepts_plus_sign_and_rejects_overflow() {
    assert_eq!(KernelVersion::parse("6.1-rc+7").rc_num, Some(7));
    assert_eq!(KernelVersion::parse("6.1-rc4294967296").rc_num, None);
    assert_eq!(KernelVersion::parse("6.1-rc4294967295").rc_num, Some(4294967295));
}

#[test]
fn queue_is_not_mainline() {
    let v = KernelVersion::parse("6.11-queue");
    assert!(v.is_queue);
    assert_eq!(v.components, vec![6]);
    assert!(!v.is_mainline());
}

#[test]
fn pieces_that_are_not_numbers_are_dropped() {
    assert_eq!(KernelVersion::parse("v6.12").components, vec![12]);
    assert_eq!(KernelVersion::parse("6..12.x").components, vec![6, 12]);
    assert_eq!(KernelVersion::parse("4294967296.1").components, vec![1]);
    assert_eq!(KernelVersion::parse("").components, Vec::<u32>::new());
    assert_eq!(KernelVersion::parse("+6.-1").components, vec![6]);
}

#[test]
fn old_numbering_scheme() {
    let v = KernelVersion::parse("2.6.32");
    assert!(v.is_mainline());
    assert_eq!(v.major_version(), "2.6.32");
    let s = KernelVersion::parse("2.6.32.71");
    assert!(!s.is_mainline());
    assert_eq!(s.major_version(), "2.6.32");
    assert!(KernelVersion::parse("2.4.37").is_mainline());
    assert!(!KernelVersion::parse("2.4.37.11").is_mainline());
    assert_eq!(KernelVersion::parse("2.4.37").major_version(), "2.4");
}

#[test]
fn version_zero_and_single_component() {
    assert!(!KernelVersion::parse("0.5").is_mainline());
    assert!(!KernelVersion::parse("6").is_mainline());
    assert_eq!(KernelVersion::parse("6").major_version(), "");
    assert_eq!(KernelVersion::parse("").major_version(), "");
}

#[test]
fn major_matches_needs_a_major_version() {
    let a = KernelVersion::parse("6.12.1");
    let b = KernelVersion::parse("6.12.9");
    assert!(a.major_matches(&b));
    assert!(!a.major_matches(&KernelVersion::parse("6.13")));
    let c = KernelVersion::parse("6");
    assert!(!c.major_matches(&c.clone()));
}

#[test]
fn from_str_never_fails() {
    let v = KernelVersion::from_str("6.12-rc1").unwrap();
    assert_eq!(v, KernelVersion::parse("6.12-rc1"));
    assert!(KernelVersion::from_str("anything").is_ok());
}

#[test]
fn ordering_of_versions() {
    let a = KernelVersion::parse("6.12");
    let b = KernelVersion::parse("6.12.5");
    assert_eq!(a.cmp(&b), Ordering::Less);
    assert_eq!(b.cmp(&a), Ordering::Greater);
    assert_eq!(a.order(&b), Order::Less);
    assert_eq!(a.partial_cmp(&b), Some(Ordering::Less));
    assert!(a < b);
    assert_eq!(a.cmp(&a), Ordering::Equal);
}

#[test]
fn mainline_comes_first_within_its_major_version() {
    let mainline = KernelVersion::parse("6.12");
    let queue = KernelVersion::parse("6.12.0-queue");
    assert_eq!(queue.components, vec![6, 12]);
    assert_eq!(mainline.cmp(&queue), Ordering::Less);
    assert_eq!(queue.cmp(&mainline), Ordering::Greater);
}

#[test]
fn release_candidates_come_before_the_release() {
    assert_eq!(compare_kernel_versions("6.13-rc1", "6.13"), Ordering::Less);
    assert_eq!(compare_kernel_versions("6.13-rc1", "6.13-rc2"), Ordering::Less);
    assert_eq!(compare_kernel_versions("6.13-rc10", "6.13-rc2"), Ordering::Greater);
    assert_eq!(compare_kernel_versions("6.13", "6.13-rc7"), Ordering::Greater);
}

#[test]
fn compare_kernel_versions_cases() {
    assert_eq!(compare_kernel_versions("6.11", "6.12"), Ordering::Less);
    assert_eq!(compare_kernel_versions("6.12", "6.12"), Ordering::Equal);
    assert_eq!(compare_kernel_versions("6.12", "6.12.0"), Ordering::Less);
    assert_eq!(compare_kernel_versions("6.12.0", "6.12.00"), Ordering::Equal);
    assert_eq!(compare_kernel_versions("5.15.100", "6.1"), Ordering::Less);
    assert_eq!(compare_kernel_versions("6.9", "6.10"), Ordering::Less);
}

#[test]
fn string_helpers() {
    assert!(version_is_mainline("6.12"));
    assert!(!version_is_mainline("6.12.1"));
    assert!(!version_is_mainline(""));
    assert_eq!(kernel_version_major("6.12.5"), "6.12");
    assert_eq!(kernel_version_major("2.6.32.1"), "2.6.32");
    assert_eq!(kernel_version_major("x"), "");
}

#[test]
fn reachability() {
    assert!(version_reachable("", "6.12"));
    assert!(version_reachable("0", "4.19"));
    assert!(version_reachable("6.11", "6.12"));
    assert!(version_reachable("6.12", "6.12"));
    assert!(!version_reachable("6.13", "6.12"));
    assert!(version_reachable("6.12.3", "6.12.5"));
    assert!(!version_reachable("6.12.7", "6.12.5"));
    assert!(!version_reachable("6.11.3", "6.12.5"));
    assert!(version_reachable("6.12", "6.12.5"));
    assert!(version_reachable("6.13-rc1", "6.13"));
    assert!(!version_reachable("6.13-rc1", "6.12.9"));
}

#[test]
fn every_version_reaches_itself() {
    for v in ["6.12", "6.12.5", "6.13-rc2", "6.11-queue", "2.6.32.1", "garbage", "0"] {
        assert!(version_reachable(v, v), "{v}");
        assert_eq!(compare_kernel_versions(v, v), Ordering::Equal);
    }
}

#[test]
fn comparison_is_antisymmetric() {
    let vs = ["6.12", "6.12.5", "6.13-rc2", "6.12-queue", "2.6.32", "2.6.32.4", "6.12-rc", "x"];
    for a in vs {
        for b in vs {
            assert_eq!(compare_kernel_versions(a, b), compare_kernel_versions(b, a).reverse(), "{a} {b}");
        }
    }
}

#[test]
fn comparison_is_transitive_on_plain_versions() {
    let vs = ["6.11", "6.12-rc1", "6.12-rc3", "6.12", "6.12.1", "6.12.9", "6.13-rc1", "6.13", "5.15.100"];
    for a in vs {
        for b in vs {
            for c in vs {
                if compare_kernel_versions(a, b) != Ordering::Greater
                    && compare_kernel_versions(b, c) != Ordering::Greater
                {
                    assert_ne!(compare_kernel_versions(a, c), Ordering::Greater, "{a} {b} {c}");
                }
            }
        }
    }
}

#[test]
fn reachable_commit_stays_reachable_later() {
    // A mainline commit in 6.11 is in 6.12 and every later release.
    assert!(version_reachable("6.11", "6.11.4"));
    assert!(version_reachable("6.11", "6.12"));
    assert!(version_reachable("6.11", "6.13-rc1"));
    // A stable commit stays within its own major version.
    assert!(version_reachable("6.12.3", "6.12.5"));
    assert!(version_reachable("6.12.3", "6.12.9"));
    assert!(!version_reachable("6.12.3", "6.13"));
}
