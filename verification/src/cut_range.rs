//! Cutting one inclusive range out of another.
use vstd::prelude::*;
use core::ops::RangeInclusive;

verus! {

/// `heapless::Vec`, a vector of fixed capacity `N`; opaque here.
#[verifier::external_type_specification]
#[verifier::external_body]
#[verifier::reject_recursive_types(T)]
pub struct ExHeaplessVec<T, const N: usize>(heapless::Vec<T, N>);

/// The bounds `(start, end)` of the ranges a `heapless::Vec` of at most two
/// ranges holds, in order.
pub uninterp spec fn range_pieces(v: heapless::Vec<RangeInclusive<u64>, 2>) -> Seq<(u64, u64)>;

/// `heapless::Vec::from_slice` on at most two ranges that have not been
/// iterated: a vector holding copies of them, in order.
#[verifier::external_body]
fn ranges_from_slice(ranges: &[RangeInclusive<u64>]) -> (r: heapless::Vec<RangeInclusive<u64>, 2>)
    requires
        ranges@.len() <= 2,
        forall|i: int| 0 <= i < ranges@.len() ==> !(#[trigger] ranges@[i])@.exhausted,
    ensures
        range_pieces(r) == ranges@.map_values(|x: RangeInclusive<u64>| (x@.start, x@.end)),
{
    heapless::Vec::from_slice(ranges).unwrap()
}

/// `heapless::Vec::default`: an empty vector.
#[verifier::external_body]
fn ranges_empty() -> (r: heapless::Vec<RangeInclusive<u64>, 2>)
    ensures
        range_pieces(r) == Seq::<(u64, u64)>::empty(),
{
    heapless::Vec::default()
}

/// The pieces that `cut` leaves of `[a, b]` when `[c, d]` is cut out of it.
pub open spec fn cut_pieces(a: u64, b: u64, c: u64, d: u64) -> Seq<(u64, u64)> {
    if a <= c <= b {
        if b < d {
            seq![(a, (c - 1) as u64), ((d + 1) as u64, b)]
        } else if c >= 1 {
            seq![(a, (c - 1) as u64)]
        } else {
            seq![]
        }
    } else if a <= d <= b {
        seq![((d + 1) as u64, b)]
    } else {
        seq![(a, b)]
    }
}

/// The inputs on which `cut` neither underflows nor overflows.
pub open spec fn cut_in_range(a: u64, b: u64, c: u64, d: u64) -> bool {
    &&& (a <= c <= b && b < d) ==> 1 <= c && d < u64::MAX
    &&& (!(a <= c <= b) && a <= d <= b) ==> d < u64::MAX
}

/// Some piece of `pieces` holds the point `p`.
pub open spec fn pieces_hold(pieces: Seq<(u64, u64)>, p: int) -> bool {
    exists|k: int| 0 <= k < pieces.len() && (#[trigger] pieces[k]).0 <= p <= pieces[k].1
}

/// A cut gives back only points of the range cut from, and where that range
/// holds an end of the cut range, none of the cut range's points.
pub proof fn lemma_cut_pieces_sound(a: u64, b: u64, c: u64, d: u64, k: int, p: int)
    requires
        cut_in_range(a, b, c, d),
        0 <= k < cut_pieces(a, b, c, d).len(),
        cut_pieces(a, b, c, d)[k].0 <= p <= cut_pieces(a, b, c, d)[k].1,
    ensures
        a <= p <= b,
        (a <= c <= b || a <= d <= b) ==> !(c <= p <= d),
{
}

/// A cut keeps the points of the range cut from that lie before the cut
/// range's start when the range holds that start, those past the cut
/// range's end when the range holds only that end, and all of them when it
/// holds neither end.
pub proof fn lemma_cut_pieces_keep(a: u64, b: u64, c: u64, d: u64, p: int)
    requires
        cut_in_range(a, b, c, d),
        a <= p <= b,
    ensures
        a <= c <= b && p < c ==> pieces_hold(cut_pieces(a, b, c, d), p),
        !(a <= c <= b) && a <= d <= b && d < p ==> pieces_hold(cut_pieces(a, b, c, d), p),
        !(a <= c <= b) && !(a <= d <= b) ==> pieces_hold(cut_pieces(a, b, c, d), p),
{
    let pieces = cut_pieces(a, b, c, d);
    // In each of these cases the first piece keeps `p`.
    if pieces.len() > 0 && pieces[0].0 <= p <= pieces[0].1 {
        assert(pieces_hold(pieces, p));
    }
}

/// Cutting a range out of `self`.
pub trait CutRange<T>: Sized {
    /// Whether `cut` is defined for these ranges.
    spec fn cut_defined(&self, cut_out: &T) -> bool;

    fn cut(self, cut_out: &T) -> heapless::Vec<T, 2>
        requires
            self.cut_defined(cut_out),
    ;
}

impl CutRange<RangeInclusive<u64>> for RangeInclusive<u64> {
    open spec fn cut_defined(&self, cut_out: &RangeInclusive<u64>) -> bool {
        &&& !self@.exhausted
        &&& !cut_out@.exhausted
        &&& cut_in_range(self@.start, self@.end, cut_out@.start, cut_out@.end)
    }

    /// The pieces of `self` around `cut_out`: when `self` holds the start of
    /// `cut_out`, the part before it and, if `cut_out` reaches past `self`,
    /// the range from past `cut_out`'s end to `self`'s end; when `self` holds
    /// only the end of `cut_out`, the part after it; otherwise `self`.
    fn cut(self, cut_out: &RangeInclusive<u64>) -> (r: heapless::Vec<RangeInclusive<u64>, 2>)
        ensures
            range_pieces(r) == cut_pieces(self@.start, self@.end, cut_out@.start, cut_out@.end),
    {
        let a = *self.start();
        let b = *self.end();
        let c = *cut_out.start();
        let d = *cut_out.end();
        let result = if self.contains(&c) {
            if b < d {
                let pieces = [a..=c - 1, d + 1..=b];
                let r = ranges_from_slice(&pieces);
                proof {
                    assert(pieces@.map_values(|x: RangeInclusive<u64>| (x@.start, x@.end)) =~= cut_pieces(a, b, c, d));
                }
                r
            } else {
                if let Some(end_inclusive) = c.checked_sub(1) {
                    let pieces = [a..=end_inclusive];
                    let r = ranges_from_slice(&pieces);
                    proof {
                        assert(pieces@.map_values(|x: RangeInclusive<u64>| (x@.start, x@.end)) =~= cut_pieces(a, b, c, d));
                    }
                    r
                } else {
                    ranges_empty()
                }
            }
        } else if self.contains(&d) {
            let pieces = [d + 1..=b];
            let r = ranges_from_slice(&pieces);
            proof {
                assert(pieces@.map_values(|x: RangeInclusive<u64>| (x@.start, x@.end)) =~= cut_pieces(a, b, c, d));
            }
            r
        } else {
            let pieces = [self];
            let r = ranges_from_slice(&pieces);
            proof {
                assert(pieces@.map_values(|x: RangeInclusive<u64>| (x@.start, x@.end)) =~= cut_pieces(a, b, c, d));
            }
            r
        };
        result
    }
}

} // verus!
