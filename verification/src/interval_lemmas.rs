//! Facts about the interval-entry model of `nodit` maps: the updates keep the
//! entries disjoint, and what they do to the value at each point.
use vstd::prelude::*;
use crate::intervals::{
    any_overlap, entry_covers, entry_overlaps, merge_insert, merged_end, merged_start,
    overwrite_insert, touches_after, touches_before, valid_entries, value_at,
};

verus! {

/// In a valid entry set, the value at a point is the value of the entry
/// covering it.
pub proof fn lemma_value_at_entry<V>(s: Set<(u64, u64, V)>, t: (u64, u64, V), p: u64)
    requires
        valid_entries(s),
        s.contains(t),
        entry_covers(t, p),
    ensures
        value_at(s, p) == Some(t.2),
{
    let c = choose|u: (u64, u64, V)| #[trigger] s.contains(u) && entry_covers(u, p);
    assert(s.contains(c) && entry_covers(c, p));
    if c != t {
        assert(s.contains(t) && s.contains(c));
    }
}

/// A point no entry covers has no value.
pub proof fn lemma_value_at_none<V>(s: Set<(u64, u64, V)>, p: u64)
    requires
        forall|t: (u64, u64, V)| #[trigger] s.contains(t) ==> !entry_covers(t, p),
    ensures
        value_at(s, p) == None::<V>,
{
}

/// Entries that share a point are the same entry.
proof fn lemma_shared_point<V>(s: Set<(u64, u64, V)>, t: (u64, u64, V), u: (u64, u64, V), p: u64)
    requires
        valid_entries(s),
        s.contains(t),
        s.contains(u),
        entry_covers(t, p),
        entry_covers(u, p),
    ensures
        t == u,
{
    if t != u {
        assert(s.contains(t) && s.contains(u));
    }
}

/// A successful merging insertion keeps the entries valid, gives every point
/// of the inserted interval the inserted value and leaves every other point
/// as it was.
pub proof fn lemma_merge_insert<V>(s: Set<(u64, u64, V)>, start: u64, end: u64, value: V)
    requires
        valid_entries(s),
        start <= end,
        !any_overlap(s, start, end),
    ensures
        valid_entries(merge_insert(s, start, end, value)),
        forall|p: u64|
            #[trigger] value_at(merge_insert(s, start, end, value), p) == if start <= p <= end {
                Some(value)
            } else {
                value_at(s, p)
            },
{
    let n = merge_insert(s, start, end, value);
    let ns = merged_start(s, start, value);
    let ne = merged_end(s, end, value);
    let m = (ns, ne, value);
    let has_l = exists|t: (u64, u64, V)| #[trigger] s.contains(t) && touches_before(t, start, value);
    let has_r = exists|t: (u64, u64, V)| #[trigger] s.contains(t) && touches_after(t, end, value);
    let tl = choose|t: (u64, u64, V)| #[trigger] s.contains(t) && touches_before(t, start, value);
    let tr = choose|t: (u64, u64, V)| #[trigger] s.contains(t) && touches_after(t, end, value);
    assert(has_l ==> s.contains(tl) && touches_before(tl, start, value) && ns == tl.0);
    assert(!has_l ==> ns == start);
    assert(has_r ==> s.contains(tr) && touches_after(tr, end, value) && ne == tr.1);
    assert(!has_r ==> ne == end);
    assert(ns <= start && end <= ne);
    // Every kept entry lies strictly before or strictly after the merged interval.
    assert forall|t: (u64, u64, V)|
        #[trigger] s.contains(t) && !touches_before(t, start, value) && !touches_after(
            t,
            end,
            value,
        ) implies t.1 < ns || ne < t.0 by {
        assert(!entry_overlaps(t, start, end));
        if t.1 < start {
            if has_l {
                if t != tl {
                    assert(s.contains(t) && s.contains(tl));
                }
            }
        } else {
            if has_r {
                if t != tr {
                    assert(s.contains(t) && s.contains(tr));
                }
            }
        }
    }
    assert forall|t: (u64, u64, V)| #[trigger] n.contains(t) implies t.0 <= t.1 by {
        if t != m {
            assert(s.contains(t));
        }
    }
    assert forall|t: (u64, u64, V), u: (u64, u64, V)|
        #[trigger] n.contains(t) && #[trigger] n.contains(u) && t != u implies t.1 < u.0 || u.1
        < t.0 by {
        if t == m {
            assert(s.contains(u) && !touches_before(u, start, value) && !touches_after(
                u,
                end,
                value,
            ));
        } else if u == m {
            assert(s.contains(t) && !touches_before(t, start, value) && !touches_after(
                t,
                end,
                value,
            ));
        } else {
            assert(s.contains(t) && s.contains(u));
        }
    }
    assert forall|p: u64|
        #[trigger] value_at(n, p) == if start <= p <= end {
            Some(value)
        } else {
            value_at(s, p)
        } by {
        if start <= p <= end {
            assert(n.contains(m));
            lemma_value_at_entry(n, m, p);
        } else if exists|t: (u64, u64, V)| #[trigger] s.contains(t) && entry_covers(t, p) {
            let t = choose|t: (u64, u64, V)| #[trigger] s.contains(t) && entry_covers(t, p);
            lemma_value_at_entry(s, t, p);
            if touches_before(t, start, value) {
                assert(has_l);
                lemma_shared_point(s, t, tl, (start - 1) as u64);
                assert(n.contains(m));
                lemma_value_at_entry(n, m, p);
            } else if touches_after(t, end, value) {
                assert(has_r);
                lemma_shared_point(s, t, tr, (end + 1) as u64);
                assert(n.contains(m));
                lemma_value_at_entry(n, m, p);
            } else {
                assert(n.contains(t));
                lemma_value_at_entry(n, t, p);
            }
        } else {
            assert forall|t: (u64, u64, V)| #[trigger] n.contains(t) implies !entry_covers(t, p) by {
                if t == m && entry_covers(m, p) {
                    if p < start {
                        assert(has_l);
                        assert(entry_covers(tl, p));
                    } else {
                        assert(has_r);
                        assert(entry_covers(tr, p));
                    }
                } else if t != m {
                    assert(s.contains(t));
                }
            }
            lemma_value_at_none(n, p);
        }
    }
}

/// `t` is the part of `o` before `start`, where `o` reaches into `[start, ..]`.
spec fn left_piece<V>(t: (u64, u64, V), o: (u64, u64, V), start: u64) -> bool {
    o.0 < start && start <= o.1 && t == (o.0, (start - 1) as u64, o.2)
}

/// `t` is the part of `o` after `end`, where `o` reaches into `[.., end]`.
spec fn right_piece<V>(t: (u64, u64, V), o: (u64, u64, V), end: u64) -> bool {
    o.0 <= end && end < o.1 && t == ((end + 1) as u64, o.1, o.2)
}

/// `t` comes from the entry `o` of the map before an overwrite of
/// `[start, end]`.
spec fn origin<V>(t: (u64, u64, V), o: (u64, u64, V), start: u64, end: u64) -> bool {
    ||| t == o && !entry_overlaps(o, start, end)
    ||| left_piece(t, o, start)
    ||| right_piece(t, o, end)
}

proof fn lemma_overwrite_origin<V>(
    s: Set<(u64, u64, V)>,
    start: u64,
    end: u64,
    value: V,
    t: (u64, u64, V),
)
    requires
        start <= end,
        overwrite_insert(s, start, end, value).contains(t),
        t != (start, end, value),
    ensures
        exists|o: (u64, u64, V)| #[trigger] s.contains(o) && origin(t, o, start, end),
{
    if s.contains(t) && !entry_overlaps(t, start, end) {
        assert(origin(t, t, start, end));
    } else if t.0 < start && t.1 == start - 1 && exists|b: u64|
        #[trigger] s.contains((t.0, b, t.2)) && start <= b {
        let b = choose|b: u64| #[trigger] s.contains((t.0, b, t.2)) && start <= b;
        assert(left_piece(t, (t.0, b, t.2), start));
        assert(s.contains((t.0, b, t.2)));
    } else {
        let a = choose|a: u64| #[trigger] s.contains((a, t.1, t.2)) && a <= end;
        assert(right_piece(t, (a, t.1, t.2), end));
        assert(s.contains((a, t.1, t.2)));
    }
}

/// An overwriting insertion keeps the entries valid, gives every point of
/// the inserted interval the inserted value and leaves every other point as
/// it was.
pub proof fn lemma_overwrite_insert<V>(s: Set<(u64, u64, V)>, start: u64, end: u64, value: V)
    requires
        valid_entries(s),
        start <= end,
    ensures
        valid_entries(overwrite_insert(s, start, end, value)),
        forall|p: u64|
            #[trigger] value_at(overwrite_insert(s, start, end, value), p) == if start <= p
                <= end {
                Some(value)
            } else {
                value_at(s, p)
            },
{
    let n = overwrite_insert(s, start, end, value);
    let m = (start, end, value);
    assert forall|t: (u64, u64, V)| #[trigger] n.contains(t) implies t.0 <= t.1 by {
        if t != m {
            lemma_overwrite_origin(s, start, end, value, t);
        }
    }
    assert forall|t: (u64, u64, V), u: (u64, u64, V)|
        #[trigger] n.contains(t) && #[trigger] n.contains(u) && t != u implies t.1 < u.0 || u.1
        < t.0 by {
        if t == m {
            lemma_overwrite_origin(s, start, end, value, u);
        } else if u == m {
            lemma_overwrite_origin(s, start, end, value, t);
        } else {
            lemma_overwrite_origin(s, start, end, value, t);
            lemma_overwrite_origin(s, start, end, value, u);
            let ot = choose|o: (u64, u64, V)| #[trigger] s.contains(o) && origin(t, o, start, end);
            let ou = choose|o: (u64, u64, V)| #[trigger] s.contains(o) && origin(u, o, start, end);
            if ot != ou {
                assert(s.contains(ot) && s.contains(ou));
            }
        }
    }
    assert forall|p: u64|
        #[trigger] value_at(n, p) == if start <= p <= end {
            Some(value)
        } else {
            value_at(s, p)
        } by {
        if start <= p <= end {
            assert(n.contains(m));
            lemma_value_at_entry(n, m, p);
        } else if exists|o: (u64, u64, V)| #[trigger] s.contains(o) && entry_covers(o, p) {
            let o = choose|o: (u64, u64, V)| #[trigger] s.contains(o) && entry_covers(o, p);
            lemma_value_at_entry(s, o, p);
            if !entry_overlaps(o, start, end) {
                assert(n.contains(o));
                lemma_value_at_entry(n, o, p);
            } else if p < start {
                let t = (o.0, (start - 1) as u64, o.2);
                assert(s.contains((t.0, o.1, t.2)));
                assert(n.contains(t));
                lemma_value_at_entry(n, t, p);
            } else {
                let t = ((end + 1) as u64, o.1, o.2);
                assert(s.contains((o.0, t.1, t.2)));
                assert(n.contains(t));
                lemma_value_at_entry(n, t, p);
            }
        } else {
            assert forall|t: (u64, u64, V)| #[trigger] n.contains(t) implies !entry_covers(t, p) by {
                if t != m {
                    lemma_overwrite_origin(s, start, end, value, t);
                    let o = choose|o: (u64, u64, V)|
                        #[trigger] s.contains(o) && origin(t, o, start, end);
                    if entry_covers(t, p) {
                        assert(entry_covers(o, p));
                    }
                }
            }
            lemma_value_at_none(n, p);
        }
    }
}

} // verus!
