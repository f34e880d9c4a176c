//! Trusted interface to the `nodit` interval collections that back the
//! physical and virtual memory bookkeeping.
use vstd::prelude::*;
use nodit::{Interval, NoditMap, NoditSet};

verus! {

/// `nodit::Interval`, an inclusive interval; opaque here.
#[verifier::external_type_specification]
#[verifier::external_body]
#[verifier::reject_recursive_types(I)]
pub struct ExInterval<I>(Interval<I>);

/// `nodit::NoditMap`, a map from disjoint intervals to values; what it
/// holds is `usage_map_entries`.
#[verifier::external_type_specification]
#[verifier::external_body]
#[verifier::reject_recursive_types(I)]
#[verifier::reject_recursive_types(K)]
#[verifier::reject_recursive_types(V)]
pub struct ExNoditMap<I, K, V>(NoditMap<I, K, V>);

/// `nodit::NoditSet`, a set of disjoint intervals; what it covers is
/// `interval_set_points`.
#[verifier::external_type_specification]
#[verifier::external_body]
#[verifier::reject_recursive_types(I)]
#[verifier::reject_recursive_types(K)]
pub struct ExNoditSet<I, K>(NoditSet<I, K>);

/// The points covered by a `NoditSet` of inclusive `u64` intervals.
pub uninterp spec fn interval_set_points(s: NoditSet<u64, Interval<u64>>) -> Set<u64>;

/// The inclusive interval `[start, end]` as a set of points.
pub open spec fn points_between(start: u64, end: u64) -> Set<u64> {
    Set::new(|p: u64| start <= p && p <= end)
}

/// `nodit::NoditSet::default`: a set that covers no point.
#[verifier::external_body]
pub fn interval_set_new() -> (s: NoditSet<u64, Interval<u64>>)
    ensures
        interval_set_points(s) == Set::<u64>::empty(),
{
    NoditSet::default()
}

} // verus!

verus! {

/// The entries `(start, end, value)` held by the physical memory map: each
/// entry stands for the inclusive interval `[start, end]` carrying `value`.
pub uninterp spec fn usage_map_entries(
    m: NoditMap<u64, Interval<u64>, crate::pmm::MemoryUsage>,
) -> Set<(u64, u64, crate::pmm::MemoryUsage)>;

/// Whether the entry `t` shares a point with `[start, end]`.
pub open spec fn entry_overlaps<V>(t: (u64, u64, V), start: u64, end: u64) -> bool {
    t.0 <= end && start <= t.1
}

/// A set of non-empty, pairwise disjoint interval entries: the shape every
/// `NoditMap` has.
pub open spec fn valid_entries<V>(s: Set<(u64, u64, V)>) -> bool {
    &&& forall|t: (u64, u64, V)| #[trigger] s.contains(t) ==> t.0 <= t.1
    &&& forall|t: (u64, u64, V), u: (u64, u64, V)|
        #[trigger] s.contains(t) && #[trigger] s.contains(u) && t != u ==> t.1 < u.0 || u.1 < t.0
}

/// Whether the entry `t` covers the point `p`.
pub open spec fn entry_covers<V>(t: (u64, u64, V), p: u64) -> bool {
    t.0 <= p && p <= t.1
}

/// The value of the entry of `s` that covers `p`, if one does.
pub open spec fn value_at<V>(s: Set<(u64, u64, V)>, p: u64) -> Option<V> {
    if exists|t: (u64, u64, V)| #[trigger] s.contains(t) && entry_covers(t, p) {
        Some((choose|t: (u64, u64, V)| #[trigger] s.contains(t) && entry_covers(t, p)).2)
    } else {
        None
    }
}

/// Whether some entry of `s` shares a point with `[start, end]`.
pub open spec fn any_overlap<V>(s: Set<(u64, u64, V)>, start: u64, end: u64) -> bool {
    exists|t: (u64, u64, V)| #[trigger] s.contains(t) && entry_overlaps(t, start, end)
}

/// Whether `t` ends right before `start` and carries `value`.
pub open spec fn touches_before<V>(t: (u64, u64, V), start: u64, value: V) -> bool {
    start > 0 && t.1 == start - 1 && t.2 == value
}

/// Whether `t` starts right after `end` and carries `value`.
pub open spec fn touches_after<V>(t: (u64, u64, V), end: u64, value: V) -> bool {
    end < u64::MAX && t.0 == end + 1 && t.2 == value
}

/// Start of the interval that `insert_merge_touching_if_values_equal` inserts.
pub open spec fn merged_start<V>(s: Set<(u64, u64, V)>, start: u64, value: V) -> u64 {
    if exists|t: (u64, u64, V)| #[trigger] s.contains(t) && touches_before(t, start, value) {
        (choose|t: (u64, u64, V)| #[trigger] s.contains(t) && touches_before(t, start, value)).0
    } else {
        start
    }
}

/// End of the interval that `insert_merge_touching_if_values_equal` inserts.
pub open spec fn merged_end<V>(s: Set<(u64, u64, V)>, end: u64, value: V) -> u64 {
    if exists|t: (u64, u64, V)| #[trigger] s.contains(t) && touches_after(t, end, value) {
        (choose|t: (u64, u64, V)| #[trigger] s.contains(t) && touches_after(t, end, value)).1
    } else {
        end
    }
}

/// The entries after a successful `insert_merge_touching_if_values_equal` of
/// `[start, end]` with `value`: entries touching it with an equal value are
/// merged into it.
pub open spec fn merge_insert<V>(s: Set<(u64, u64, V)>, start: u64, end: u64, value: V) -> Set<
    (u64, u64, V),
> {
    s.filter(|t: (u64, u64, V)| !touches_before(t, start, value) && !touches_after(t, end, value))
        .insert((merged_start(s, start, value), merged_end(s, end, value), value))
}

/// The entries after `insert_overwrite` of `[start, end]` with `value`: every
/// overlapping entry is cut down to its parts outside `[start, end]`.
pub open spec fn overwrite_insert<V>(s: Set<(u64, u64, V)>, start: u64, end: u64, value: V) -> Set<
    (u64, u64, V),
> {
    Set::new(
        |t: (u64, u64, V)|
            {
                ||| t == (start, end, value)
                ||| s.contains(t) && !entry_overlaps(t, start, end)
                ||| t.0 < start && t.1 == start - 1 && exists|b: u64|
                    #[trigger] s.contains((t.0, b, t.2)) && start <= b
                ||| end < t.1 && t.0 == end + 1 && exists|a: u64|
                    #[trigger] s.contains((a, t.1, t.2)) && a <= end
            },
    )
}

/// `nodit::NoditMap::default`: a map with no entry.
#[verifier::external_body]
pub fn usage_map_new() -> (m: NoditMap<u64, Interval<u64>, crate::pmm::MemoryUsage>)
    ensures
        usage_map_entries(m) == Set::<(u64, u64, crate::pmm::MemoryUsage)>::empty(),
{
    NoditMap::default()
}

/// `nodit::NoditMap::insert_merge_touching_if_values_equal` with the interval
/// `[start, end]`: refused, leaving the map as it was, exactly when some entry
/// overlaps the interval; otherwise the interval is inserted and merged with
/// the entries that end right before it or start right after it and carry an
/// equal value.
#[verifier::external_body]
pub fn usage_map_insert_merge_touching_if_values_equal(
    m: &mut NoditMap<u64, Interval<u64>, crate::pmm::MemoryUsage>,
    start: u64,
    end: u64,
    value: crate::pmm::MemoryUsage,
) -> (ok: bool)
    requires
        start <= end,
        valid_entries(usage_map_entries(*old(m))),
    ensures
        ok == !any_overlap(usage_map_entries(*old(m)), start, end),
        ok ==> usage_map_entries(*final(m)) == merge_insert(
            usage_map_entries(*old(m)),
            start,
            end,
            value,
        ),
        !ok ==> usage_map_entries(*final(m)) == usage_map_entries(*old(m)),
{
    m.insert_merge_touching_if_values_equal(nodit::interval::ii(start, end), value).is_ok()
}

/// `nodit::NoditMap::insert_overwrite` with the interval `[start, end]`: the
/// parts of the overlapping entries inside the interval are cut away and the
/// interval is inserted with `value`.
#[verifier::external_body]
pub fn usage_map_insert_overwrite(
    m: &mut NoditMap<u64, Interval<u64>, crate::pmm::MemoryUsage>,
    start: u64,
    end: u64,
    value: crate::pmm::MemoryUsage,
)
    requires
        start <= end,
        valid_entries(usage_map_entries(*old(m))),
    ensures
        usage_map_entries(*final(m)) == overwrite_insert(
            usage_map_entries(*old(m)),
            start,
            end,
            value,
        ),
{
    let _ = m.insert_overwrite(nodit::interval::ii(start, end), value);
}

/// `nodit::NoditMap::iter`: every entry, each once, by ascending start.
#[verifier::external_body]
pub fn usage_map_entries_in_order(m: &NoditMap<u64, Interval<u64>, crate::pmm::MemoryUsage>) -> (r:
    Vec<(u64, u64, crate::pmm::MemoryUsage)>)
    ensures
        forall|i: int| 0 <= i < r.len() ==> usage_map_entries(*m).contains(#[trigger] r@[i]),
        forall|t: (u64, u64, crate::pmm::MemoryUsage)|
            #[trigger] usage_map_entries(*m).contains(t) ==> r@.contains(t),
        forall|i: int, j: int| #![trigger r@[i], r@[j]] 0 <= i < j < r.len() ==> r@[i].0 < r@[j].0,
{
    m.iter().map(|(k, v)| (*k.start(), *k.end(), v.clone())).collect()
}

} // verus!

verus! {

/// `g` is a maximal run of points not in `points`, at or above `lo`.
pub open spec fn is_gap(points: Set<u64>, lo: u64, g: (u64, u64)) -> bool {
    &&& lo <= g.0 <= g.1
    &&& forall|p: u64| g.0 <= p <= g.1 ==> !#[trigger] points.contains(p)
    &&& g.0 == lo || points.contains((g.0 - 1) as u64)
    &&& g.1 == u64::MAX || points.contains((g.1 + 1) as u64)
}

/// `nodit::NoditSet::insert_merge_touching` with the interval
/// `[start, end]`: refused, leaving the set as it was, exactly when the set
/// already covers a point of the interval; otherwise the interval's points
/// are added.
#[verifier::external_body]
pub fn interval_set_insert_merge_touching(
    s: &mut NoditSet<u64, Interval<u64>>,
    start: u64,
    end: u64,
) -> (ok: bool)
    requires
        start <= end,
    ensures
        ok == (interval_set_points(*old(s)).disjoint(points_between(start, end))),
        ok ==> interval_set_points(*final(s)) == interval_set_points(*old(s)).union(
            points_between(start, end),
        ),
        !ok ==> interval_set_points(*final(s)) == interval_set_points(*old(s)),
{
    s.insert_merge_touching(nodit::interval::ii(start, end)).is_ok()
}

/// `nodit::NoditSet::insert_merge_touching_or_overlapping` with the interval
/// `[start, end]`: the interval's points are added.
#[verifier::external_body]
pub fn interval_set_insert_merge_touching_or_overlapping(
    s: &mut NoditSet<u64, Interval<u64>>,
    start: u64,
    end: u64,
)
    requires
        start <= end,
    ensures
        interval_set_points(*final(s)) == interval_set_points(*old(s)).union(
            points_between(start, end),
        ),
{
    let _ = s.insert_merge_touching_or_overlapping(nodit::interval::ii(start, end));
}

/// `nodit::NoditSet::cut` with the interval `[start, end]`: the interval's
/// points are removed.
#[verifier::external_body]
pub fn interval_set_cut(s: &mut NoditSet<u64, Interval<u64>>, start: u64, end: u64)
    requires
        start <= end,
    ensures
        interval_set_points(*final(s)) == interval_set_points(*old(s)).difference(
            points_between(start, end),
        ),
{
    let _ = s.cut(&nodit::interval::ii(start, end));
}

/// `nodit::NoditSet::gaps_trimmed` with the interval `[lo, u64::MAX]`: the
/// maximal runs of uncovered points at or above `lo`, in ascending order.
#[verifier::external_body]
pub fn interval_set_gaps_from(s: &NoditSet<u64, Interval<u64>>, lo: u64) -> (r: Vec<(u64, u64)>)
    ensures
        forall|i: int| 0 <= i < r.len() ==> is_gap(interval_set_points(*s), lo, #[trigger] r@[i]),
        forall|i: int, j: int| #![trigger r@[i], r@[j]] 0 <= i < j < r.len() ==> r@[i].1 < r@[j].0,
        forall|p: u64|
            lo <= p && !#[trigger] interval_set_points(*s).contains(p) ==> exists|i: int|
                0 <= i < r.len() && #[trigger] r@[i].0 <= p <= r@[i].1,
{
    s.gaps_trimmed(&nodit::interval::iu(lo)).map(|g| (*g.start(), *g.end())).collect()
}

} // verus!
