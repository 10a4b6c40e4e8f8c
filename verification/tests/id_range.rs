use std::cmp::Ordering;
use std::ops::Bound;
use tokio_ns_jail::{Gid, GidRange, Id, IdRange, Uid, UidRange};

fn uid(raw: u32) -> Uid {
    Uid { raw }
}

fn ends(range: UidRange) -> Option<(u32, u32)> {
    match (range.start(), range.end()) {
        (Some(start), Some(end)) => Some((start.as_raw(), end.as_raw())),
        _ => None,
    }
}

#[test]
fn ids_keep_their_numbers() {
    assert_eq!(Uid::from_raw(7).as_raw(), 7);
    assert_eq!(Gid::from_raw(u32::MAX).as_raw(), u32::MAX);
    assert_eq!(tokio_ns_jail::id_range::uid_as_raw(tokio_ns_jail::id_range::uid_from_raw(3)), 3);
    assert_eq!(tokio_ns_jail::id_range::gid_as_raw(tokio_ns_jail::id_range::gid_from_raw(4)), 4);
    assert_eq!(nix::unistd::Uid::from_raw(7).as_raw(), Uid::from_raw(7).as_raw());
}

#[test]
fn new_orders_its_ends() {
    let range = UidRange::new(uid(9), uid(3));
    assert_eq!(range.start(), Some(uid(3)));
    assert_eq!(range.end(), Some(uid(9)));
    assert_eq!(range.len(), 7);
    assert!(!range.is_empty());
}

#[test]
fn the_empty_range_has_no_ends() {
    let range = GidRange::empty();
    assert!(range.is_empty());
    assert_eq!(range.len(), 0);
    assert_eq!(range.start(), None);
    assert_eq!(range.end(), None);
    assert!(GidRange::default().is_empty());
}

#[test]
fn ranges_of_numbers_use_both_bounds() {
    assert_eq!(ends((5u32..=6).into()), Some((5, 6)));
    assert_eq!(ends((5u32..9).into()), Some((5, 8)));
    assert_eq!(ends((9u32..5).into()), Some((6, 9)));
    assert_eq!(ends((5u32..5).into()), None);
    assert_eq!(ends((..3u32).into()), Some((0, 2)));
    assert_eq!(ends((..0u32).into()), None);
    assert_eq!(ends((..=3u32).into()), Some((0, 3)));
    assert_eq!(ends((..).into()), None);
    assert_eq!(ends(8u32.into()), Some((8, 8)));
    assert_eq!(ends((&5u32..&9u32).into()), Some((5, 8)));
    assert_eq!(ends((&5u32..=&9u32).into()), Some((5, 9)));
    assert_eq!(ends((..&3u32).into()), Some((0, 2)));
    assert_eq!(ends((..=&3u32).into()), Some((0, 3)));
}

#[test]
fn ranges_of_ids_use_both_bounds() {
    assert_eq!(ends(uid(4).into()), Some((4, 4)));
    assert_eq!(ends((uid(5)..uid(9)).into()), Some((5, 8)));
    assert_eq!(ends((uid(5)..=uid(9)).into()), Some((5, 9)));
    assert_eq!(ends((uid(9)..=uid(5)).into()), Some((5, 9)));
    assert_eq!(ends((..uid(5)).into()), Some((0, 4)));
    assert_eq!(ends((..=uid(5)).into()), Some((0, 5)));
    assert_eq!(ends((&uid(5)..&uid(9)).into()), Some((5, 8)));
    assert_eq!(ends((&uid(5)..=&uid(9)).into()), Some((5, 9)));
    assert_eq!(ends((..&uid(5)).into()), Some((0, 4)));
    assert_eq!(ends((..=&uid(5)).into()), Some((0, 5)));
}

#[test]
fn a_range_without_an_end_goes_up_to_the_last_id() {
    assert_eq!(ends((7u32..).into()), Some((7, u32::MAX)));
    assert_eq!(ends((&7u32..).into()), Some((7, u32::MAX)));
    assert_eq!(ends((uid(7)..).into()), Some((7, u32::MAX)));
    assert_eq!(ends((&uid(7)..).into()), Some((7, u32::MAX)));
    let range: UidRange = (7u32..).into();
    assert!(range.is_countable());
    assert_eq!(range.len(), 4294967289);
    let range: UidRange = (0u32..).into();
    assert!(!range.is_countable());
}

#[test]
fn pairs_of_bounds() {
    let ex = |s: u32, e: u32| ends((Bound::Excluded(s), Bound::Excluded(e)).into());
    assert_eq!(ex(3, 6), Some((4, 5)));
    assert_eq!(ex(3, 5), Some((4, 4)));
    assert_eq!(ex(3, 4), None);
    assert_eq!(ex(3, 3), None);
    assert_eq!(ex(6, 3), Some((4, 5)));
    assert_eq!(ex(4, 3), None);
    let exin = |s: u32, e: u32| ends((Bound::Excluded(s), Bound::Included(e)).into());
    assert_eq!(exin(3, 6), Some((4, 6)));
    assert_eq!(exin(6, 3), Some((3, 5)));
    assert_eq!(exin(6, 6), None);
    let after = |s: u32| ends((Bound::Excluded(s), Bound::Unbounded).into());
    assert_eq!(after(6), Some((7, u32::MAX)));
    assert_eq!(after(u32::MAX), None);
    let ids: (Bound<Uid>, Bound<Uid>) = (Bound::Excluded(uid(1)), Bound::Included(uid(3)));
    assert_eq!(ends(ids.into()), Some((2, 3)));
    let (a, b) = (uid(1), uid(3));
    let refs: (Bound<&Uid>, Bound<&Uid>) = (Bound::Included(&a), Bound::Excluded(&b));
    assert_eq!(ends(refs.into()), Some((1, 2)));
    let nums: (Bound<&u32>, Bound<&u32>) = (Bound::Included(&1), Bound::Excluded(&3));
    assert_eq!(ends(nums.into()), Some((1, 2)));
    assert_eq!(
        ends(UidRange::from_raw_range(Bound::Included(10), Bound::Excluded(12))),
        Some((10, 11))
    );
    assert_eq!(
        ends(UidRange::from_range(Bound::Unbounded, Bound::Excluded(uid(2)))),
        Some((0, 1))
    );
}

#[test]
fn swapping_included_bounds_keeps_the_range() {
    for (s, e) in [(1u32, 9u32), (9, 1), (4, 4), (0, u32::MAX)] {
        let there: UidRange = (Bound::Included(s), Bound::Included(e)).into();
        let back: UidRange = (Bound::Included(e), Bound::Included(s)).into();
        assert_eq!(there, back);
    }
}

#[test]
fn iterates_in_order() {
    let range: UidRange = (3u32..=6).into();
    let mut iter = range.iter();
    assert_eq!(iter.next(), Some(uid(3)));
    assert_eq!(iter.next(), Some(uid(4)));
    assert_eq!(iter.next(), Some(uid(5)));
    assert_eq!(iter.next(), Some(uid(6)));
    assert_eq!(iter.next(), None);
    assert_eq!(iter.next(), None);
    let mut none = UidRange::empty().into_iter();
    assert_eq!(none.next(), None);
}

#[test]
fn the_longest_ranges_are_not_counted() {
    let all: UidRange = (0u32..=u32::MAX).into();
    assert!(!all.is_countable());
    let most: UidRange = (1u32..=u32::MAX).into();
    assert!(most.is_countable());
    assert_eq!(most.len(), u32::MAX as usize);
}

#[test]
fn ranges_that_overlap_compare_equal() {
    let a: UidRange = (1u32..=4).into();
    let b: UidRange = (4u32..=9).into();
    let c: UidRange = (10u32..=12).into();
    let none = UidRange::empty();
    assert_eq!(a.cmp(&b), Ordering::Equal);
    assert_eq!(b.cmp(&a), Ordering::Equal);
    assert_eq!(a.cmp(&c), Ordering::Less);
    assert_eq!(c.cmp(&a), Ordering::Greater);
    assert_eq!(none.cmp(&a), Ordering::Less);
    assert_eq!(a.cmp(&none), Ordering::Greater);
    assert_eq!(none.cmp(&none), Ordering::Equal);
    assert!(b < c);
    assert!(a != b);
    assert_eq!(b.partial_cmp(&c), Some(Ordering::Less));
}

#[test]
fn any_id_can_be_ranged() {
    let range: IdRange<Gid> = IdRange::new(Gid { raw: 2 }, Gid { raw: 2 });
    assert_eq!(range.len(), 1);
    assert_eq!(range.start(), range.end());
}
