//! User and group IDs, and ranges of them.
use core::cmp::Ordering;
use core::marker::PhantomData;
use core::ops::{
    Bound, Range, RangeBounds, RangeFrom, RangeFull, RangeInclusive, RangeTo, RangeToInclusive,
};
use vstd::prelude::*;
use vstd::std_specs::convert::FromSpecImpl;

verus! {

#[verifier::external_type_specification]
pub struct ExBound<T>(Bound<T>);

#[verifier::external_type_specification]
pub struct ExRangeFrom<T>(RangeFrom<T>);

#[verifier::external_type_specification]
pub struct ExRangeTo<T>(RangeTo<T>);

#[verifier::external_type_specification]
pub struct ExRangeToInclusive<T>(RangeToInclusive<T>);

#[verifier::external_type_specification]
pub struct ExRangeFull(RangeFull);

/// An identifier of the system that is a number.
pub trait Id: Copy + Eq {
    /// The number.
    spec fn raw(self) -> u32;

    /// The identifier with the given number.
    fn from_raw(raw: u32) -> (id: Self)
        ensures
            id.raw() == raw,
    ;

    /// The number of the identifier.
    fn as_raw(self) -> (r: u32)
        ensures
            r == self.raw(),
    ;
}

/// A user ID.
#[derive(Debug, Clone, Copy, PartialEq, Eq, Hash, Structural)]
pub struct Uid {
    /// The number.
    pub raw: u32,
}

/// A group ID.
#[derive(Debug, Clone, Copy, PartialEq, Eq, Hash, Structural)]
pub struct Gid {
    /// The number.
    pub raw: u32,
}

/// The user ID with the given number.
pub fn uid_from_raw(raw: u32) -> (r: Uid)
    ensures
        r == (Uid { raw }),
{
    Uid { raw }
}

/// The number of a user ID.
pub fn uid_as_raw(uid: Uid) -> (r: u32)
    ensures
        r == uid.raw,
{
    uid.raw
}

/// The group ID with the given number.
pub fn gid_from_raw(raw: u32) -> (r: Gid)
    ensures
        r == (Gid { raw }),
{
    Gid { raw }
}

/// The number of a group ID.
pub fn gid_as_raw(gid: Gid) -> (r: u32)
    ensures
        r == gid.raw,
{
    gid.raw
}

impl Id for Uid {
    open spec fn raw(self) -> u32 {
        self.raw
    }

    fn from_raw(raw: u32) -> (id: Self) {
        uid_from_raw(raw)
    }

    fn as_raw(self) -> (r: u32) {
        uid_as_raw(self)
    }
}

impl Id for Gid {
    open spec fn raw(self) -> u32 {
        self.raw
    }

    fn from_raw(raw: u32) -> (id: Self) {
        gid_from_raw(raw)
    }

    fn as_raw(self) -> (r: u32) {
        gid_as_raw(self)
    }
}

#[derive(Debug, Clone, Copy, PartialEq, Eq, Hash)]
struct IdRangeInner<T: Id> {
    start: T,
    end: T,
}

/// A range of IDs: either nothing, or a first and a last ID.
#[derive(Debug, Clone, Copy, PartialEq, Eq, Hash)]
pub struct IdRange<T: Id> {
    range: Option<IdRangeInner<T>>,
}

/// A range of user IDs.
pub type UidRange = IdRange<Uid>;

/// A range of group IDs.
pub type GidRange = IdRange<Gid>;

/// The first and the last number of a range between two bounds.
///
/// Two bounds that are both numbers enclose a range whichever of them is
/// the greater; an excluded bound is not part of it. A bound that is missing
/// is the first or the last number there is; where both are, the range is
/// empty.
pub open spec fn span(start: Bound<u32>, end: Bound<u32>) -> Option<(u32, u32)> {
    match (start, end) {
        (Bound::Unbounded, Bound::Unbounded) => None,
        (Bound::Unbounded, Bound::Included(e)) => Some((0, e)),
        (Bound::Unbounded, Bound::Excluded(e)) => if e == 0 {
            None
        } else {
            Some((0, (e - 1) as u32))
        },
        (Bound::Included(s), Bound::Unbounded) => Some((s, u32::MAX)),
        (Bound::Excluded(s), Bound::Unbounded) => if s == u32::MAX {
            None
        } else {
            Some(((s + 1) as u32, u32::MAX))
        },
        _ => {
            let (low, high) = if bound_value(start) <= bound_value(end) {
                (start, end)
            } else {
                (end, start)
            };
            let first = if low is Included {
                bound_value(low)
            } else {
                bound_value(low) + 1
            };
            let last = if high is Included {
                bound_value(high)
            } else {
                bound_value(high) - 1
            };
            if first <= last {
                Some((first as u32, last as u32))
            } else {
                None
            }
        },
    }
}

/// The number of a bound that has one.
pub open spec fn bound_value(b: Bound<u32>) -> int {
    match b {
        Bound::Included(v) => v as int,
        Bound::Excluded(v) => v as int,
        Bound::Unbounded => 0,
    }
}

/// A bound on IDs as a bound on their numbers.
pub open spec fn raw_bound<T: Id>(b: Bound<T>) -> Bound<u32> {
    match b {
        Bound::Included(id) => Bound::Included(id.raw()),
        Bound::Excluded(id) => Bound::Excluded(id.raw()),
        Bound::Unbounded => Bound::Unbounded,
    }
}

/// The numbers from the first to the last, in order.
pub open spec fn ids_of(range: Option<(u32, u32)>) -> Seq<int> {
    match range {
        None => Seq::empty(),
        Some((first, last)) => if first <= last {
            Seq::new((last - first + 1) as nat, |i: int| first + i)
        } else {
            Seq::empty()
        },
    }
}

/// Whether a range can be counted: its first number is not after its last,
/// and the number of its numbers fits in 32 bits.
pub open spec fn countable_range(range: Option<(u32, u32)>) -> bool {
    match range {
        None => true,
        Some((first, last)) => first <= last && last - first < u32::MAX,
    }
}

/// How two ranges compare: one that lies wholly before another is less, one
/// that lies wholly after it is greater, and two that share a number compare
/// equal. A range without IDs is less than any other.
pub open spec fn compare(l: Option<(u32, u32)>, r: Option<(u32, u32)>) -> Ordering {
    match (l, r) {
        (None, None) => Ordering::Equal,
        (Some(_), None) => Ordering::Greater,
        (None, Some(_)) => Ordering::Less,
        (Some(a), Some(b)) => if a.1 < b.0 {
            Ordering::Less
        } else if a.1 > b.0 && a.0 > b.1 {
            Ordering::Greater
        } else {
            Ordering::Equal
        },
    }
}

impl<T: Id> View for IdRange<T> {
    type V = Option<(u32, u32)>;

    closed spec fn view(&self) -> Option<(u32, u32)> {
        match self.range {
            None => None,
            Some(inner) => Some((inner.start.raw(), inner.end.raw())),
        }
    }
}

impl<T: Id> Default for IdRange<T> {
    /// The range without IDs.
    fn default() -> (r: Self)
        ensures
            r@ is None,
    {
        Self::empty()
    }
}

impl<T: Id> IdRange<T> {
    /// Whether the range can be counted: its first ID is not after its last,
    /// and the number of its IDs fits in 32 bits.
    pub open spec fn countable(self) -> bool {
        countable_range(self@)
    }

    /// The numbers of the IDs in the range, in order.
    pub open spec fn ids(self) -> Seq<int> {
        ids_of(self@)
    }

    /// The range without IDs.
    pub fn empty() -> (r: Self)
        ensures
            r@ is None,
    {
        IdRange { range: None }
    }

    /// The range between two IDs, both included, whichever is the greater.
    pub fn new(start: T, end: T) -> (r: Self)
        ensures
            r@ == (if start.raw() <= end.raw() {
                Some((start.raw(), end.raw()))
            } else {
                Some((end.raw(), start.raw()))
            }),
    {
        Self::from_range(Bound::Included(start), Bound::Included(end))
    }

    /// Whether the range has no IDs.
    pub fn is_empty(self) -> (r: bool)
        ensures
            r == (self@ is None),
    {
        self.range.is_none()
    }

    /// Whether the range can be counted.
    pub fn is_countable(self) -> (r: bool)
        ensures
            r == self.countable(),
    {
        match self.range {
            None => true,
            Some(range) => range.start.as_raw() <= range.end.as_raw() && range.end.as_raw()
                - range.start.as_raw() < u32::MAX,
        }
    }

    /// The number of IDs in the range.
    pub fn len(self) -> (r: usize)
        requires
            self.countable(),
        ensures
            r == self.ids().len(),
            self@ matches Some((first, last)) ==> r == last - first + 1,
    {
        match self.range {
            None => 0,
            Some(range) => ((range.end.as_raw() - range.start.as_raw()) + 1) as usize,
        }
    }

    /// The first ID of the range.
    pub fn start(self) -> (r: Option<T>)
        ensures
            match r {
                Some(id) => self@ matches Some((first, _)) && id.raw() == first,
                None => self@ is None,
            },
    {
        match self.range {
            Some(range) => Some(range.start),
            None => None,
        }
    }

    /// The last ID of the range.
    pub fn end(self) -> (r: Option<T>)
        ensures
            match r {
                Some(id) => self@ matches Some((_, last)) && id.raw() == last,
                None => self@ is None,
            },
    {
        match self.range {
            Some(range) => Some(range.end),
            None => None,
        }
    }

    /// Walks over the IDs of the range, in order.
    pub fn iter(self) -> (r: Iter<T>)
        requires
            self.countable(),
        ensures
            r@ == self.ids(),
    {
        self.into_iter()
    }

    /// Walks over the IDs of the range, in order.
    pub fn into_iter(self) -> (r: Iter<T>)
        requires
            self.countable(),
        ensures
            r@ == self.ids(),
    {
        let r = match self.range {
            None => Iter { curr: 0, count: 0, _phantom: PhantomData },
            Some(range) => Iter {
                curr: range.start.as_raw(),
                count: ((range.end.as_raw() - range.start.as_raw()) + 1) as usize,
                _phantom: PhantomData,
            },
        };
        assert(r@ =~= self.ids());
        r
    }

    /// Compares two ranges by their place; see [`compare`].
    pub fn cmp(&self, other: &Self) -> (r: Ordering)
        ensures
            r == compare(self@, other@),
    {
        match (&self.range, &other.range) {
            (None, None) => Ordering::Equal,
            (Some(_), None) => Ordering::Greater,
            (None, Some(_)) => Ordering::Less,
            (Some(l), Some(r)) => l.cmp(r),
        }
    }

    /// The range between two bounds on numbers; see [`span`].
    pub fn from_raw_range(start: Bound<u32>, end: Bound<u32>) -> (r: Self)
        ensures
            r@ == span(start, end),
    {
        Self::from_range(id_bound(start), id_bound(end))
    }

    /// The range between two bounds; see [`span`].
    pub fn from_range(start: Bound<T>, end: Bound<T>) -> (r: Self)
        ensures
            r@ == span(raw_bound(start), raw_bound(end)),
    {
        match (start, end) {
            (Bound::Unbounded, Bound::Unbounded) => Self::empty(),
            (Bound::Unbounded, Bound::Included(id)) => Self::between(T::from_raw(0), id),
            (Bound::Unbounded, Bound::Excluded(id)) => {
                if id.as_raw() == 0 {
                    Self::empty()
                } else {
                    Self::between(T::from_raw(0), T::from_raw(id.as_raw() - 1))
                }
            },
            (Bound::Included(id), Bound::Unbounded) => Self::between(id, T::from_raw(u32::MAX)),
            (Bound::Excluded(id), Bound::Unbounded) => {
                if id.as_raw() == u32::MAX {
                    Self::empty()
                } else {
                    Self::between(T::from_raw(id.as_raw() + 1), T::from_raw(u32::MAX))
                }
            },
            (Bound::Included(start), Bound::Included(end)) => {
                if start.as_raw() <= end.as_raw() {
                    Self::between(start, end)
                } else {
                    Self::between(end, start)
                }
            },
            (Bound::Included(start), Bound::Excluded(end)) => {
                if start.as_raw() < end.as_raw() {
                    Self::between(start, T::from_raw(end.as_raw() - 1))
                } else if start.as_raw() == end.as_raw() {
                    Self::empty()
                } else {
                    Self::between(T::from_raw(end.as_raw() + 1), start)
                }
            },
            (Bound::Excluded(start), Bound::Included(end)) => {
                if start.as_raw() < end.as_raw() {
                    Self::between(T::from_raw(start.as_raw() + 1), end)
                } else if start.as_raw() == end.as_raw() {
                    Self::empty()
                } else {
                    Self::between(end, T::from_raw(start.as_raw() - 1))
                }
            },
            (Bound::Excluded(start), Bound::Excluded(end)) => {
                if start.as_raw() < end.as_raw() {
                    if start.as_raw() + 1 <= end.as_raw() - 1 {
                        Self::between(
                            T::from_raw(start.as_raw() + 1),
                            T::from_raw(end.as_raw() - 1),
                        )
                    } else {
                        Self::empty()
                    }
                } else if start.as_raw() == end.as_raw() {
                    Self::empty()
                } else if end.as_raw() + 1 <= start.as_raw() - 1 {
                    Self::between(T::from_raw(end.as_raw() + 1), T::from_raw(start.as_raw() - 1))
                } else {
                    Self::empty()
                }
            },
        }
    }

    /// The range with the given first and last ID.
    fn between(start: T, end: T) -> (r: Self)
        ensures
            r@ == Some((start.raw(), end.raw())),
    {
        IdRange { range: Some(IdRangeInner { start, end }) }
    }
}

impl<T: Id> IdRangeInner<T> {
    fn cmp(&self, other: &Self) -> (r: Ordering)
        ensures
            r == compare(
                Some((self.start.raw(), self.end.raw())),
                Some((other.start.raw(), other.end.raw())),
            ),
    {
        if self.end.as_raw() < other.start.as_raw() {
            Ordering::Less
        } else if self.end.as_raw() == other.start.as_raw() {
            Ordering::Equal
        } else if self.start.as_raw() > other.end.as_raw() {
            Ordering::Greater
        } else {
            Ordering::Equal
        }
    }
}

/// A bound on numbers as a bound on IDs.
fn id_bound<T: Id>(b: Bound<u32>) -> (r: Bound<T>)
    ensures
        raw_bound(r) == b,
{
    match b {
        Bound::Included(raw) => Bound::Included(T::from_raw(raw)),
        Bound::Excluded(raw) => Bound::Excluded(T::from_raw(raw)),
        Bound::Unbounded => Bound::Unbounded,
    }
}

impl<T: Id> PartialOrd for IdRange<T> {
    fn partial_cmp(&self, other: &Self) -> (r: Option<Ordering>) {
        Some(self.cmp(other))
    }
}

impl<T: Id> vstd::std_specs::cmp::PartialOrdSpecImpl for IdRange<T> {
    open spec fn obeys_partial_cmp_spec() -> bool {
        true
    }

    open spec fn partial_cmp_spec(&self, other: &Self) -> Option<Ordering> {
        Some(compare(self@, other@))
    }
}

/// A walk over the IDs of a range.
#[derive(Debug)]
pub struct Iter<T: Id> {
    curr: u32,
    count: usize,
    _phantom: PhantomData<T>,
}

impl<T: Id> View for Iter<T> {
    type V = Seq<int>;

    /// The numbers of the IDs that are still to come, in order.
    closed spec fn view(&self) -> Seq<int> {
        Seq::new(self.count as nat, |i: int| self.curr + i)
    }
}

impl<T: Id> Iter<T> {
    /// The next ID of the range, if there is one.
    pub fn next(&mut self) -> (r: Option<T>)
        requires
            old(self)@.len() > 0 ==> old(self)@[0] < u32::MAX,
        ensures
            match r {
                Some(id) => {
                    &&& old(self)@.len() > 0
                    &&& id.raw() == old(self)@[0]
                    &&& final(self)@ == old(self)@.skip(1)
                },
                None => old(self)@.len() == 0 && final(self)@ == old(self)@,
            },
    {
        if self.count == 0 {
            None
        } else {
            let id: u32 = self.curr;
            assert(self@[0] == id);
            self.curr = self.curr + 1;
            self.count = self.count - 1;
            assert(self@ =~= old(self)@.skip(1));
            Some(T::from_raw(id))
        }
    }
}

/// The start of an inclusive range of std, by `RangeBounds::start_bound`.
///
/// For a range that was not iterated to its end the bound is the start that
/// the range was made with, included. Of any other range nothing is claimed.
#[verifier::external_body]
fn inclusive_start<T: Copy>(range: &RangeInclusive<T>) -> (r: Bound<T>)
    ensures
        !range@.exhausted ==> r == Bound::Included(range@.start),
{
    range.start_bound().cloned()
}

/// The end of an inclusive range of std, by `RangeBounds::end_bound`.
///
/// For a range that was not iterated to its end the bound is the end that
/// the range was made with, included. Of any other range nothing is claimed.
#[verifier::external_body]
fn inclusive_end<T: Copy>(range: &RangeInclusive<T>) -> (r: Bound<T>)
    ensures
        !range@.exhausted ==> r == Bound::Included(range@.end),
{
    range.end_bound().cloned()
}

/// A bound by reference as a bound by value.
pub open spec fn spec_deref_bound<T>(b: Bound<&T>) -> Bound<T> {
    match b {
        Bound::Included(v) => Bound::Included(*v),
        Bound::Excluded(v) => Bound::Excluded(*v),
        Bound::Unbounded => Bound::Unbounded,
    }
}

/// A bound by reference as a bound by value.
fn deref_bound<T: Copy>(b: Bound<&T>) -> (r: Bound<T>)
    ensures
        r == spec_deref_bound(b),
{
    match b {
        Bound::Included(v) => Bound::Included(*v),
        Bound::Excluded(v) => Bound::Excluded(*v),
        Bound::Unbounded => Bound::Unbounded,
    }
}

// What each conversion gives is stated by the `ensures` of its `from`: an ID
// type has no constructor in specifications, so there is no value for
// `from_spec` to name.

impl<T: Id> From<u32> for IdRange<T> {
    /// The range of the one ID with the given number.
    fn from(raw_id: u32) -> (r: Self)
        ensures
            r@ == Some((raw_id, raw_id)),
    {
        Self::from(T::from_raw(raw_id))
    }
}

impl<T: Id> FromSpecImpl<u32> for IdRange<T> {
    open spec fn obeys_from_spec() -> bool {
        false
    }

    open spec fn from_spec(raw_id: u32) -> Self {
        arbitrary()
    }
}

impl<T: Id> From<T> for IdRange<T> {
    /// The range of one ID.
    fn from(id: T) -> (r: Self)
        ensures
            r@ == Some((id.raw(), id.raw())),
    {
        Self::between(id, id)
    }
}

impl<T: Id> FromSpecImpl<T> for IdRange<T> {
    open spec fn obeys_from_spec() -> bool {
        false
    }

    open spec fn from_spec(id: T) -> Self {
        arbitrary()
    }
}

impl<T: Id> From<RangeFull> for IdRange<T> {
    /// The range without IDs.
    fn from(_range: RangeFull) -> (r: Self)
        ensures
            r@ is None,
    {
        Self::from_range(Bound::Unbounded, Bound::Unbounded)
    }
}

impl<T: Id> FromSpecImpl<RangeFull> for IdRange<T> {
    open spec fn obeys_from_spec() -> bool {
        false
    }

    open spec fn from_spec(_range: RangeFull) -> Self {
        arbitrary()
    }
}

impl<T: Id> From<Range<T>> for IdRange<T> {
    /// The range between two IDs, the second excluded; see [`span`].
    fn from(range: Range<T>) -> (r: Self)
        ensures
            r@ == span(Bound::Included(range.start.raw()), Bound::Excluded(range.end.raw())),
    {
        Self::from_range(Bound::Included(range.start), Bound::Excluded(range.end))
    }
}

impl<T: Id> FromSpecImpl<Range<T>> for IdRange<T> {
    open spec fn obeys_from_spec() -> bool {
        false
    }

    open spec fn from_spec(range: Range<T>) -> Self {
        arbitrary()
    }
}

impl<T: Id> From<RangeFrom<T>> for IdRange<T> {
    /// The range with an ID as its only bound, at the start; see [`span`].
    fn from(range: RangeFrom<T>) -> (r: Self)
        ensures
            r@ == span(Bound::Included(range.start.raw()), Bound::Unbounded),
    {
        Self::from_range(Bound::Included(range.start), Bound::Unbounded)
    }
}

impl<T: Id> FromSpecImpl<RangeFrom<T>> for IdRange<T> {
    open spec fn obeys_from_spec() -> bool {
        false
    }

    open spec fn from_spec(range: RangeFrom<T>) -> Self {
        arbitrary()
    }
}

impl<T: Id> From<RangeTo<T>> for IdRange<T> {
    /// The range up to an ID, excluded; see [`span`].
    fn from(range: RangeTo<T>) -> (r: Self)
        ensures
            r@ == span(Bound::Unbounded, Bound::Excluded(range.end.raw())),
    {
        Self::from_range(Bound::Unbounded, Bound::Excluded(range.end))
    }
}

impl<T: Id> FromSpecImpl<RangeTo<T>> for IdRange<T> {
    open spec fn obeys_from_spec() -> bool {
        false
    }

    open spec fn from_spec(range: RangeTo<T>) -> Self {
        arbitrary()
    }
}

impl<T: Id> From<RangeInclusive<T>> for IdRange<T> {
    /// The range between two IDs, both included, unless it was iterated to its end;
    /// see [`span`].
    fn from(range: RangeInclusive<T>) -> (r: Self)
        ensures
            !range@.exhausted ==> r@ == span(
                Bound::Included(range@.start.raw()),
                Bound::Included(range@.end.raw()),
            ),
    {
        Self::from_range(inclusive_start(&range), inclusive_end(&range))
    }
}

impl<T: Id> FromSpecImpl<RangeInclusive<T>> for IdRange<T> {
    open spec fn obeys_from_spec() -> bool {
        false
    }

    open spec fn from_spec(range: RangeInclusive<T>) -> Self {
        arbitrary()
    }
}

impl<T: Id> From<RangeToInclusive<T>> for IdRange<T> {
    /// The range up to an ID, included; see [`span`].
    fn from(range: RangeToInclusive<T>) -> (r: Self)
        ensures
            r@ == span(Bound::Unbounded, Bound::Included(range.end.raw())),
    {
        Self::from_range(Bound::Unbounded, Bound::Included(range.end))
    }
}

impl<T: Id> FromSpecImpl<RangeToInclusive<T>> for IdRange<T> {
    open spec fn obeys_from_spec() -> bool {
        false
    }

    open spec fn from_spec(range: RangeToInclusive<T>) -> Self {
        arbitrary()
    }
}

impl<T: Id> From<(Bound<T>, Bound<T>)> for IdRange<T> {
    /// The range between two bounds on IDs; see [`span`].
    fn from(range: (Bound<T>, Bound<T>)) -> (r: Self)
        ensures
            r@ == span(raw_bound(range.0), raw_bound(range.1)),
    {
        Self::from_range(range.0, range.1)
    }
}

impl<T: Id> FromSpecImpl<(Bound<T>, Bound<T>)> for IdRange<T> {
    open spec fn obeys_from_spec() -> bool {
        false
    }

    open spec fn from_spec(range: (Bound<T>, Bound<T>)) -> Self {
        arbitrary()
    }
}

impl<T: Id> From<Range<&T>> for IdRange<T> {
    /// The range between two IDs, the second excluded; see [`span`].
    fn from(range: Range<&T>) -> (r: Self)
        ensures
            r@ == span(Bound::Included(range.start.raw()), Bound::Excluded(range.end.raw())),
    {
        Self::from_range(Bound::Included(*range.start), Bound::Excluded(*range.end))
    }
}

impl<T: Id> FromSpecImpl<Range<&T>> for IdRange<T> {
    open spec fn obeys_from_spec() -> bool {
        false
    }

    open spec fn from_spec(range: Range<&T>) -> Self {
        arbitrary()
    }
}

impl<T: Id> From<RangeFrom<&T>> for IdRange<T> {
    /// The range with an ID as its only bound, at the start; see [`span`].
    fn from(range: RangeFrom<&T>) -> (r: Self)
        ensures
            r@ == span(Bound::Included(range.start.raw()), Bound::Unbounded),
    {
        Self::from_range(Bound::Included(*range.start), Bound::Unbounded)
    }
}

impl<T: Id> FromSpecImpl<RangeFrom<&T>> for IdRange<T> {
    open spec fn obeys_from_spec() -> bool {
        false
    }

    open spec fn from_spec(range: RangeFrom<&T>) -> Self {
        arbitrary()
    }
}

impl<T: Id> From<RangeTo<&T>> for IdRange<T> {
    /// The range up to an ID, excluded; see [`span`].
    fn from(range: RangeTo<&T>) -> (r: Self)
        ensures
            r@ == span(Bound::Unbounded, Bound::Excluded(range.end.raw())),
    {
        Self::from_range(Bound::Unbounded, Bound::Excluded(*range.end))
    }
}

impl<T: Id> FromSpecImpl<RangeTo<&T>> for IdRange<T> {
    open spec fn obeys_from_spec() -> bool {
        false
    }

    open spec fn from_spec(range: RangeTo<&T>) -> Self {
        arbitrary()
    }
}

impl<T: Id> From<RangeInclusive<&T>> for IdRange<T> {
    /// The range between two IDs, both included, unless it was iterated to its end;
    /// see [`span`].
    fn from(range: RangeInclusive<&T>) -> (r: Self)
        ensures
            !range@.exhausted ==> r@ == span(
                Bound::Included(range@.start.raw()),
                Bound::Included(range@.end.raw()),
            ),
    {
        Self::from_range(deref_bound(inclusive_start(&range)), deref_bound(inclusive_end(&range)))
    }
}

impl<T: Id> FromSpecImpl<RangeInclusive<&T>> for IdRange<T> {
    open spec fn obeys_from_spec() -> bool {
        false
    }

    open spec fn from_spec(range: RangeInclusive<&T>) -> Self {
        arbitrary()
    }
}

impl<T: Id> From<RangeToInclusive<&T>> for IdRange<T> {
    /// The range up to an ID, included; see [`span`].
    fn from(range: RangeToInclusive<&T>) -> (r: Self)
        ensures
            r@ == span(Bound::Unbounded, Bound::Included(range.end.raw())),
    {
        Self::from_range(Bound::Unbounded, Bound::Included(*range.end))
    }
}

impl<T: Id> FromSpecImpl<RangeToInclusive<&T>> for IdRange<T> {
    open spec fn obeys_from_spec() -> bool {
        false
    }

    open spec fn from_spec(range: RangeToInclusive<&T>) -> Self {
        arbitrary()
    }
}

impl<T: Id> From<(Bound<&T>, Bound<&T>)> for IdRange<T> {
    /// The range between two bounds on IDs; see [`span`].
    fn from(range: (Bound<&T>, Bound<&T>)) -> (r: Self)
        ensures
            r@ == span(
                raw_bound(spec_deref_bound(range.0)),
                raw_bound(spec_deref_bound(range.1)),
            ),
    {
        Self::from_range(deref_bound(range.0), deref_bound(range.1))
    }
}

impl<T: Id> FromSpecImpl<(Bound<&T>, Bound<&T>)> for IdRange<T> {
    open spec fn obeys_from_spec() -> bool {
        false
    }

    open spec fn from_spec(range: (Bound<&T>, Bound<&T>)) -> Self {
        arbitrary()
    }
}

impl<T: Id> From<Range<u32>> for IdRange<T> {
    /// The range between two numbers, the second excluded; see [`span`].
    fn from(range: Range<u32>) -> (r: Self)
        ensures
            r@ == span(Bound::Included(range.start), Bound::Excluded(range.end)),
    {
        Self::from_raw_range(Bound::Included(range.start), Bound::Excluded(range.end))
    }
}

impl<T: Id> FromSpecImpl<Range<u32>> for IdRange<T> {
    open spec fn obeys_from_spec() -> bool {
        false
    }

    open spec fn from_spec(range: Range<u32>) -> Self {
        arbitrary()
    }
}

impl<T: Id> From<RangeFrom<u32>> for IdRange<T> {
    /// The range with a number as its only bound, at the start; see [`span`].
    fn from(range: RangeFrom<u32>) -> (r: Self)
        ensures
            r@ == span(Bound::Included(range.start), Bound::Unbounded),
    {
        Self::from_raw_range(Bound::Included(range.start), Bound::Unbounded)
    }
}

impl<T: Id> FromSpecImpl<RangeFrom<u32>> for IdRange<T> {
    open spec fn obeys_from_spec() -> bool {
        false
    }

    open spec fn from_spec(range: RangeFrom<u32>) -> Self {
        arbitrary()
    }
}

impl<T: Id> From<RangeTo<u32>> for IdRange<T> {
    /// The range up to a number, excluded; see [`span`].
    fn from(range: RangeTo<u32>) -> (r: Self)
        ensures
            r@ == span(Bound::Unbounded, Bound::Excluded(range.end)),
    {
        Self::from_raw_range(Bound::Unbounded, Bound::Excluded(range.end))
    }
}

impl<T: Id> FromSpecImpl<RangeTo<u32>> for IdRange<T> {
    open spec fn obeys_from_spec() -> bool {
        false
    }

    open spec fn from_spec(range: RangeTo<u32>) -> Self {
        arbitrary()
    }
}

impl<T: Id> From<RangeInclusive<u32>> for IdRange<T> {
    /// The range between two numbers, both included, unless it was iterated to its end;
    /// see [`span`].
    fn from(range: RangeInclusive<u32>) -> (r: Self)
        ensures
            !range@.exhausted ==> r@ == span(
                Bound::Included(range@.start),
                Bound::Included(range@.end),
            ),
    {
        Self::from_raw_range(inclusive_start(&range), inclusive_end(&range))
    }
}

impl<T: Id> FromSpecImpl<RangeInclusive<u32>> for IdRange<T> {
    open spec fn obeys_from_spec() -> bool {
        false
    }

    open spec fn from_spec(range: RangeInclusive<u32>) -> Self {
        arbitrary()
    }
}

impl<T: Id> From<RangeToInclusive<u32>> for IdRange<T> {
    /// The range up to a number, included; see [`span`].
    fn from(range: RangeToInclusive<u32>) -> (r: Self)
        ensures
            r@ == span(Bound::Unbounded, Bound::Included(range.end)),
    {
        Self::from_raw_range(Bound::Unbounded, Bound::Included(range.end))
    }
}

impl<T: Id> FromSpecImpl<RangeToInclusive<u32>> for IdRange<T> {
    open spec fn obeys_from_spec() -> bool {
        false
    }

    open spec fn from_spec(range: RangeToInclusive<u32>) -> Self {
        arbitrary()
    }
}

impl<T: Id> From<(Bound<u32>, Bound<u32>)> for IdRange<T> {
    /// The range between two bounds on numbers; see [`span`].
    fn from(range: (Bound<u32>, Bound<u32>)) -> (r: Self)
        ensures
            r@ == span(range.0, range.1),
    {
        Self::from_raw_range(range.0, range.1)
    }
}

impl<T: Id> FromSpecImpl<(Bound<u32>, Bound<u32>)> for IdRange<T> {
    open spec fn obeys_from_spec() -> bool {
        false
    }

    open spec fn from_spec(range: (Bound<u32>, Bound<u32>)) -> Self {
        arbitrary()
    }
}

impl<T: Id> From<Range<&u32>> for IdRange<T> {
    /// The range between two numbers, the second excluded; see [`span`].
    fn from(range: Range<&u32>) -> (r: Self)
        ensures
            r@ == span(Bound::Included(*range.start), Bound::Excluded(*range.end)),
    {
        Self::from_raw_range(Bound::Included(*range.start), Bound::Excluded(*range.end))
    }
}

impl<T: Id> FromSpecImpl<Range<&u32>> for IdRange<T> {
    open spec fn obeys_from_spec() -> bool {
        false
    }

    open spec fn from_spec(range: Range<&u32>) -> Self {
        arbitrary()
    }
}

impl<T: Id> From<RangeFrom<&u32>> for IdRange<T> {
    /// The range with a number as its only bound, at the start; see [`span`].
    fn from(range: RangeFrom<&u32>) -> (r: Self)
        ensures
            r@ == span(Bound::Included(*range.start), Bound::Unbounded),
    {
        Self::from_raw_range(Bound::Included(*range.start), Bound::Unbounded)
    }
}

impl<T: Id> FromSpecImpl<RangeFrom<&u32>> for IdRange<T> {
    open spec fn obeys_from_spec() -> bool {
        false
    }

    open spec fn from_spec(range: RangeFrom<&u32>) -> Self {
        arbitrary()
    }
}

impl<T: Id> From<RangeTo<&u32>> for IdRange<T> {
    /// The range up to a number, excluded; see [`span`].
    fn from(range: RangeTo<&u32>) -> (r: Self)
        ensures
            r@ == span(Bound::Unbounded, Bound::Excluded(*range.end)),
    {
        Self::from_raw_range(Bound::Unbounded, Bound::Excluded(*range.end))
    }
}

impl<T: Id> FromSpecImpl<RangeTo<&u32>> for IdRange<T> {
    open spec fn obeys_from_spec() -> bool {
        false
    }

    open spec fn from_spec(range: RangeTo<&u32>) -> Self {
        arbitrary()
    }
}

impl<T: Id> From<RangeInclusive<&u32>> for IdRange<T> {
    /// The range between two numbers, both included, unless it was iterated to its end;
    /// see [`span`].
    fn from(range: RangeInclusive<&u32>) -> (r: Self)
        ensures
            !range@.exhausted ==> r@ == span(
                Bound::Included(*range@.start),
                Bound::Included(*range@.end),
            ),
    {
        Self::from_raw_range(deref_bound(inclusive_start(&range)), deref_bound(inclusive_end(&range)))
    }
}

impl<T: Id> FromSpecImpl<RangeInclusive<&u32>> for IdRange<T> {
    open spec fn obeys_from_spec() -> bool {
        false
    }

    open spec fn from_spec(range: RangeInclusive<&u32>) -> Self {
        arbitrary()
    }
}

impl<T: Id> From<RangeToInclusive<&u32>> for IdRange<T> {
    /// The range up to a number, included; see [`span`].
    fn from(range: RangeToInclusive<&u32>) -> (r: Self)
        ensures
            r@ == span(Bound::Unbounded, Bound::Included(*range.end)),
    {
        Self::from_raw_range(Bound::Unbounded, Bound::Included(*range.end))
    }
}

impl<T: Id> FromSpecImpl<RangeToInclusive<&u32>> for IdRange<T> {
    open spec fn obeys_from_spec() -> bool {
        false
    }

    open spec fn from_spec(range: RangeToInclusive<&u32>) -> Self {
        arbitrary()
    }
}

impl<T: Id> From<(Bound<&u32>, Bound<&u32>)> for IdRange<T> {
    /// The range between two bounds on numbers; see [`span`].
    fn from(range: (Bound<&u32>, Bound<&u32>)) -> (r: Self)
        ensures
            r@ == span(spec_deref_bound(range.0), spec_deref_bound(range.1)),
    {
        Self::from_raw_range(deref_bound(range.0), deref_bound(range.1))
    }
}

impl<T: Id> FromSpecImpl<(Bound<&u32>, Bound<&u32>)> for IdRange<T> {
    open spec fn obeys_from_spec() -> bool {
        false
    }

    open spec fn from_spec(range: (Bound<&u32>, Bound<&u32>)) -> Self {
        arbitrary()
    }
}

/// Two bounds that are both numbers enclose the same range in either order.
pub proof fn bounds_commute(a: Bound<u32>, b: Bound<u32>)
    requires
        !(a is Unbounded),
        !(b is Unbounded),
    ensures
        span(a, b) == span(b, a),
{
}

/// A range between two bounds that are both numbers has exactly the numbers
/// between them, with a bound itself only where it is included.
pub proof fn bounds_enclose(a: Bound<u32>, b: Bound<u32>, x: u32)
    requires
        !(a is Unbounded),
        !(b is Unbounded),
    ensures
        (span(a, b) matches Some((first, last)) && first <= x <= last) <==> {
            &&& (bound_value(a) <= x <= bound_value(b) || bound_value(b) <= x <= bound_value(a))
            &&& (x == bound_value(a) ==> a is Included)
            &&& (x == bound_value(b) ==> b is Included)
        },
{
}

/// A range up to a bound has exactly the numbers below it, with the bound
/// itself only where it is included.
pub proof fn end_bound_encloses(b: Bound<u32>, x: u32)
    requires
        !(b is Unbounded),
    ensures
        (span(Bound::Unbounded, b) matches Some((first, last)) && first <= x <= last) <==> {
            &&& x <= bound_value(b)
            &&& (x == bound_value(b) ==> b is Included)
        },
{
}

/// A range from a bound on has exactly the numbers above it, with the bound
/// itself only where it is included.
pub proof fn start_bound_encloses(a: Bound<u32>, x: u32)
    requires
        !(a is Unbounded),
    ensures
        (span(a, Bound::Unbounded) matches Some((first, last)) && first <= x <= last) <==> {
            &&& bound_value(a) <= x
            &&& (x == bound_value(a) ==> a is Included)
        },
{
}

/// The first number of a range is not after its last.
pub proof fn bounds_ascend(a: Bound<u32>, b: Bound<u32>)
    ensures
        span(a, b) matches Some((first, last)) ==> first <= last,
{
}

/// The numbers of a range are those from its first to its last, each once
/// and in ascending order.
pub proof fn ids_ascend(range: Option<(u32, u32)>)
    ensures
        forall|x: int|
            ids_of(range).contains(x) <==> (range matches Some((first, last)) && first <= x
                <= last),
        forall|i: int, j: int|
            0 <= i < j < ids_of(range).len() ==> ids_of(range)[i] < ids_of(range)[j],
{
    assert forall|x: int|
        (range matches Some((first, last)) && first <= x <= last) implies ids_of(range).contains(
        x,
    ) by {
        let first = range.unwrap().0;
        assert(ids_of(range)[x - first] == x);
    }
}

/// Comparing in the other order gives the opposite result.
pub proof fn compare_is_antisymmetric(l: Option<(u32, u32)>, r: Option<(u32, u32)>)
    requires
        l matches Some((first, last)) ==> first <= last,
        r matches Some((first, last)) ==> first <= last,
    ensures
        compare(l, r) == Ordering::Less <==> compare(r, l) == Ordering::Greater,
        compare(l, r) == Ordering::Equal <==> compare(r, l) == Ordering::Equal,
{
}

/// A range before a second, which is before a third, is before the third.
pub proof fn compare_is_transitive(
    a: Option<(u32, u32)>,
    b: Option<(u32, u32)>,
    c: Option<(u32, u32)>,
)
    requires
        b matches Some((first, last)) ==> first <= last,
        compare(a, b) == Ordering::Less,
        compare(b, c) == Ordering::Less,
    ensures
        compare(a, c) == Ordering::Less,
{
}

/// Two ranges that are not empty compare equal exactly when they share a
/// number.
pub proof fn compare_equal_is_overlap(a: (u32, u32), b: (u32, u32))
    requires
        a.0 <= a.1,
        b.0 <= b.1,
    ensures
        compare(Some(a), Some(b)) == Ordering::Equal <==> exists|x: int|
            #![trigger ids_of(Some(a)).contains(x)]
            ids_of(Some(a)).contains(x) && ids_of(Some(b)).contains(x),
{
    ids_ascend(Some(a));
    ids_ascend(Some(b));
    if compare(Some(a), Some(b)) == Ordering::Equal {
        let x: int = if a.0 <= b.0 {
            0 + b.0
        } else {
            0 + a.0
        };
        assert(ids_of(Some(a)).contains(x) && ids_of(Some(b)).contains(x));
    }
}

/// A range without bounds has no numbers, and one number alone is a range of
/// one.
pub proof fn ranges_without_bounds_are_empty(x: u32)
    ensures
        ids_of(span(Bound::Unbounded, Bound::Unbounded)).len() == 0,
        ids_of(span(Bound::Included(x), Bound::Included(x))) == seq![x as int],
{
    assert(ids_of(span(Bound::Included(x), Bound::Included(x))) =~= seq![x as int]);
}

/// A range that is not empty can be counted exactly when it has at least one
/// number and no more than 32 bits can count.
pub proof fn what_can_be_counted(range: (u32, u32))
    ensures
        countable_range(Some(range)) <==> 0 < ids_of(Some(range)).len() <= 0xffff_ffff,
        countable_range(None),
{
}

/// A range lies before another exactly when all its numbers are less than all
/// of the other.
pub proof fn less_is_wholly_before(a: (u32, u32), b: (u32, u32))
    requires
        a.0 <= a.1,
        b.0 <= b.1,
    ensures
        compare(Some(a), Some(b)) is Less <==> forall|x: int, y: int|
            #![trigger ids_of(Some(a)).contains(x), ids_of(Some(b)).contains(y)]
            ids_of(Some(a)).contains(x) && ids_of(Some(b)).contains(y) ==> x < y,
        compare(None, Some(b)) is Less,
        compare(Some(a), None) is Greater,
        compare(None, None) is Equal,
{
    ids_ascend(Some(a));
    ids_ascend(Some(b));
    let x: int = 0 + a.1;
    let y: int = 0 + b.0;
    assert(ids_of(Some(a)).contains(x));
    assert(ids_of(Some(b)).contains(y));
}

/// Whether a range has a number.
pub open spec fn in_range(range: Option<(u32, u32)>, x: u32) -> bool {
    range matches Some((first, last)) && first <= x <= last
}

/// The numbers of a range are those between its bounds: a bound that is
/// included is one of them, one that is excluded is not, and where there is
/// none the numbers go on to the first or the last there is.
pub proof fn ranges_are_between_their_bounds(s: u32, e: u32, x: u32)
    ensures
        in_range(span(Bound::Included(s), Bound::Included(e)), x) <==> s <= x <= e || e <= x <= s,
        in_range(span(Bound::Included(s), Bound::Excluded(e)), x) <==> s <= x < e || e < x <= s,
        in_range(span(Bound::Excluded(s), Bound::Included(e)), x) <==> s < x <= e || e <= x < s,
        in_range(span(Bound::Excluded(s), Bound::Excluded(e)), x) <==> s < x < e || e < x < s,
        in_range(span(Bound::Unbounded, Bound::Included(e)), x) <==> x <= e,
        in_range(span(Bound::Unbounded, Bound::Excluded(e)), x) <==> x < e,
        in_range(span(Bound::Included(s), Bound::Unbounded), x) <==> s <= x,
        in_range(span(Bound::Excluded(s), Bound::Unbounded), x) <==> s < x,
        !in_range(span(Bound::Unbounded, Bound::Unbounded), x),
{
}

/// Bounds on IDs are the bounds on their numbers, and bounds by reference
/// those by value; and what a range has, and whether it can be counted, goes
/// by its first and last number.
pub proof fn ids_go_by_their_numbers<T: Id>(id: T, range: IdRange<T>)
    ensures
        raw_bound(Bound::Included(id)) == Bound::Included(id.raw()),
        raw_bound(Bound::Excluded(id)) == Bound::Excluded(id.raw()),
        raw_bound(Bound::<T>::Unbounded) is Unbounded,
        spec_deref_bound(Bound::Included(&id)) == Bound::Included(id),
        spec_deref_bound(Bound::Excluded(&id)) == Bound::Excluded(id),
        spec_deref_bound(Bound::<&T>::Unbounded) is Unbounded,
        range.ids() == ids_of(range@),
        range.countable() == countable_range(range@),
{
}

} // verus!
