use vstd::prelude::*;

verus! {

/// The set of integer points lying in the half-open interval `[start, end)`.
pub open spec fn span(start: int, end: int) -> Set<int> {
    Set::new(|p: int| start <= p < end)
}

#[verifier::external_type_specification]
#[verifier::external_body]
#[verifier::reject_recursive_types(T)]
pub struct ExRangeSet<T>(rangemap::RangeSet<T>);

/// The set of points covered by some range stored in the tracker.
pub uninterp spec fn points(ranges: rangemap::RangeSet<usize>) -> Set<int>;

/// Relies on rangemap::RangeSet::new: makes an empty set of ranges.
#[verifier::external_body]
pub(crate) fn rset_new() -> (r: rangemap::RangeSet<usize>)
    ensures
        points(r) == Set::<int>::empty(),
{
    rangemap::RangeSet::new()
}

/// Relies on rangemap::RangeSet::insert: adds `[start, end)` to the covered
/// points, coalescing with overlapping or adjacent stored ranges. The callee
/// panics on an empty range, so one is excluded here.
#[verifier::external_body]
pub(crate) fn rset_insert(ranges: &mut rangemap::RangeSet<usize>, start: usize, end: usize)
    requires
        start < end,
    ensures
        points(*final(ranges)) == points(*old(ranges)).union(span(start as int, end as int)),
{
    ranges.insert(start..end);
}

/// Relies on rangemap::RangeSet::remove: removes `[start, end)` from the
/// covered points, contracting stored ranges that partially overlap it. The
/// callee panics on an empty range, so one is excluded here.
#[verifier::external_body]
pub(crate) fn rset_remove(ranges: &mut rangemap::RangeSet<usize>, start: usize, end: usize)
    requires
        start < end,
    ensures
        points(*final(ranges)) == points(*old(ranges)).difference(span(start as int, end as int)),
{
    ranges.remove(start..end);
}

/// Relies on rangemap::RangeSet::contains: whether any stored range covers
/// the value.
#[verifier::external_body]
pub(crate) fn rset_contains(ranges: &rangemap::RangeSet<usize>, value: usize) -> (r: bool)
    ensures
        r == points(*ranges).contains(value as int),
{
    ranges.contains(&value)
}

/// Relies on rangemap::RangeSet::is_empty: whether no range is stored, which
/// holds exactly when no point is covered, since stored ranges are non-empty.
#[verifier::external_body]
pub(crate) fn rset_is_empty(ranges: &rangemap::RangeSet<usize>) -> (r: bool)
    ensures
        r == points(*ranges).is_empty(),
{
    ranges.is_empty()
}

/// Relies on rangemap::RangeSet::get: returns the stored range covering the
/// value, if any. Stored ranges are kept maximally coalesced, so the returned
/// range is bounded on both sides by uncovered points.
#[verifier::external_body]
pub(crate) fn rset_get(ranges: &rangemap::RangeSet<usize>, value: usize) -> (r: Option<
    (usize, usize),
>)
    ensures
        (r is Some) <==> points(*ranges).contains(value as int),
        r matches Some(found) ==> {
            &&& found.0 <= value < found.1
            &&& span(found.0 as int, found.1 as int).subset_of(points(*ranges))
            &&& !points(*ranges).contains(found.1 as int)
            &&& (found.0 > 0 ==> !points(*ranges).contains(found.0 - 1))
        },
{
    ranges.get(&value).map(|r| (r.start, r.end))
}

/// A set of half-open integer intervals over the virtual address space,
/// with adjacent and overlapping intervals coalesced automatically. The
/// engine keeps two: the ranges already downloaded, and the ranges a fetch
/// is in flight for.
pub struct RangeTracker {
    ranges: rangemap::RangeSet<usize>,
}

impl RangeTracker {
    /// The set of covered points.
    pub closed spec fn points(&self) -> Set<int> {
        points(self.ranges)
    }

    /// An empty tracker.
    pub fn new() -> (r: RangeTracker)
        ensures
            r.points() == Set::<int>::empty(),
    {
        RangeTracker { ranges: rset_new() }
    }

    /// Covers `[start, end)`.
    pub fn insert(&mut self, start: usize, end: usize)
        requires
            start < end,
        ensures
            final(self).points() == old(self).points().union(span(start as int, end as int)),
    {
        rset_insert(&mut self.ranges, start, end);
    }

    /// Uncovers `[start, end)`.
    pub fn remove(&mut self, start: usize, end: usize)
        requires
            start < end,
        ensures
            final(self).points() == old(self).points().difference(span(start as int, end as int)),
    {
        rset_remove(&mut self.ranges, start, end);
    }

    /// Whether the given point is covered.
    pub fn contains(&self, value: usize) -> (r: bool)
        ensures
            r == self.points().contains(value as int),
    {
        rset_contains(&self.ranges, value)
    }

    /// Whether nothing is covered.
    pub fn is_empty(&self) -> (r: bool)
        ensures
            r == self.points().is_empty(),
    {
        rset_is_empty(&self.ranges)
    }

    /// The maximal coalesced interval enclosing the given point, if any.
    pub fn enclosing(&self, value: usize) -> (r: Option<(usize, usize)>)
        ensures
            (r is Some) <==> self.points().contains(value as int),
            r matches Some(range) ==> {
                &&& range.0 <= value < range.1
                &&& span(range.0 as int, range.1 as int).subset_of(self.points())
                &&& !self.points().contains(range.1 as int)
                &&& (range.0 > 0 ==> !self.points().contains(range.0 - 1))
            },
    {
        rset_get(&self.ranges, value)
    }
}

/// The union of a sequence of half-open ranges.
pub open spec fn union_spans(ranges: Seq<(int, int)>) -> Set<int>
    decreases ranges.len(),
{
    if ranges.len() == 0 {
        Set::empty()
    } else {
        union_spans(ranges.drop_last()).union(span(ranges.last().0, ranges.last().1))
    }
}

/// A tracker grown by inserting a sequence of ranges into an initial set of
/// covered points.
pub open spec fn insert_all(initial: Set<int>, ranges: Seq<(int, int)>) -> Set<int>
    decreases ranges.len(),
{
    if ranges.len() == 0 {
        initial
    } else {
        insert_all(initial, ranges.drop_last()).union(
            span(ranges.last().0, ranges.last().1),
        )
    }
}

/// After any sequence of range insertions, the covered points are the initial
/// ones together with the union of all inserted ranges, and a point is
/// covered if and only if it was covered initially or some inserted range
/// contains it.
pub proof fn lemma_insert_all_is_union(initial: Set<int>, ranges: Seq<(int, int)>)
    ensures
        insert_all(initial, ranges) == initial.union(union_spans(ranges)),
        forall|p: int|
            insert_all(initial, ranges).contains(p) <==> (initial.contains(p) || exists|i: int|
                0 <= i < ranges.len() && (#[trigger] ranges[i]).0 <= p < ranges[i].1),
    decreases ranges.len(),
{
    if ranges.len() == 0 {
        assert(insert_all(initial, ranges) =~= initial.union(union_spans(ranges)));
    } else {
        let front = ranges.drop_last();
        lemma_insert_all_is_union(initial, front);
        assert(insert_all(initial, ranges) =~= initial.union(union_spans(ranges)));
        assert forall|p: int| insert_all(initial, ranges).contains(p) implies (initial.contains(p)
            || exists|i: int|
                0 <= i < ranges.len() && (#[trigger] ranges[i]).0 <= p < ranges[i].1) by {
            if !initial.contains(p) {
                if union_spans(front).contains(p) {
                    let i = choose|i: int|
                        0 <= i < front.len() && (#[trigger] front[i]).0 <= p < front[i].1;
                    assert(ranges[i].0 <= p < ranges[i].1);
                } else {
                    let last = ranges.len() - 1;
                    assert(ranges[last].0 <= p < ranges[last].1);
                }
            }
        }
        assert forall|p: int| (initial.contains(p) || exists|i: int|
            0 <= i < ranges.len() && (#[trigger] ranges[i]).0 <= p
                < ranges[i].1) implies insert_all(initial, ranges).contains(p) by {
            if !initial.contains(p) {
                let i = choose|i: int|
                    0 <= i < ranges.len() && (#[trigger] ranges[i]).0 <= p < ranges[i].1;
                if i < ranges.len() - 1 {
                    assert(front[i].0 <= p < front[i].1);
                }
            }
        }
    }
}

} // verus!
