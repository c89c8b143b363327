//! The measures of a chart of job counts over time: what the axes span, and how
//! large the picture and its title are.

use vstd::prelude::*;
use crate::time::Timestamp;

verus! {

/// What the axes of a chart span.
#[derive(Debug, Clone, Copy, PartialEq, Eq, Structural)]
pub struct ChartBounds {
    /// The instant of the earliest point; of the first of them where several are earliest.
    pub first: Timestamp,
    /// The instant of the latest point; of the last of them where several are latest.
    pub last: Timestamp,
    /// The smallest count.
    pub min: usize,
    /// The largest count.
    pub max: usize,
}

/// `i` is the place of the first of the earliest points.
pub open spec fn is_first_earliest(points: Seq<(Timestamp, usize)>, i: int) -> bool {
    &&& 0 <= i < points.len()
    &&& forall|j: int| 0 <= j < points.len() ==> points[i].0.total_nanos() <= (#[trigger] points[j]).0.total_nanos()
    &&& forall|j: int| 0 <= j < i ==> points[i].0.total_nanos() < (#[trigger] points[j]).0.total_nanos()
}

/// `i` is the place of the last of the latest points.
pub open spec fn is_last_latest(points: Seq<(Timestamp, usize)>, i: int) -> bool {
    &&& 0 <= i < points.len()
    &&& forall|j: int| 0 <= j < points.len() ==> (#[trigger] points[j]).0.total_nanos() <= points[i].0.total_nanos()
    &&& forall|j: int| i < j < points.len() ==> (#[trigger] points[j]).0.total_nanos() < points[i].0.total_nanos()
}

/// A point of a chart.
#[derive(Debug, Clone, Copy, PartialEq, Eq)]
pub struct Point<Tx, Ty> {
    pub x: Tx,
    pub y: Ty,
}

/// The point at `x` and `y`.
#[allow(non_snake_case)]
pub fn Point<Tx, Ty>(x: Tx, y: Ty) -> (p: Point<Tx, Ty>)
    ensures
        p.x == x,
        p.y == y,
{
    Point { x, y }
}

/// `i` is the place of the first of the points with the smallest count.
pub open spec fn is_first_min(points: Seq<(Timestamp, usize)>, i: int) -> bool {
    &&& 0 <= i < points.len()
    &&& forall|j: int| 0 <= j < points.len() ==> points[i].1 <= (#[trigger] points[j]).1
    &&& forall|j: int| 0 <= j < i ==> points[i].1 < (#[trigger] points[j]).1
}

/// `i` is the place of the last of the points with the largest count.
pub open spec fn is_last_max(points: Seq<(Timestamp, usize)>, i: int) -> bool {
    &&& 0 <= i < points.len()
    &&& forall|j: int| 0 <= j < points.len() ==> (#[trigger] points[j]).1 <= points[i].1
    &&& forall|j: int| i < j < points.len() ==> (#[trigger] points[j]).1 < points[i].1
}

/// Calls `itertools::Itertools::minmax_by_key` on the points with their places, the
/// count as the key, and hands on the two places that it gives: none for no point,
/// else the place of the first of the points with the smallest count and the place of
/// the last of the points with the largest count.
#[verifier::external_body]
fn minmax_places(points: &Vec<(Timestamp, usize)>) -> (r: Option<(usize, usize)>)
    ensures
        match r {
            None => points@.len() == 0,
            Some((lo, hi)) => is_first_min(points@, lo as int) && is_last_max(points@, hi as int),
        },
{
    match itertools::Itertools::minmax_by_key(points.iter().enumerate(), |(_, point)| point.1) {
        itertools::MinMaxResult::NoElements => None,
        itertools::MinMaxResult::OneElement((at, _)) => Some((at, at)),
        itertools::MinMaxResult::MinMax((lo, _), (hi, _)) => Some((lo, hi)),
    }
}

/// The point with the smallest and the point with the largest count: of several
/// with the smallest count the first, of several with the largest count the last.
/// `None` where there is no point.
pub fn minmax_by_key(points: &Vec<(Timestamp, usize)>) -> (r: Option<(Point<Timestamp, usize>, Point<Timestamp, usize>)>)
    ensures
        match r {
            None => points@.len() == 0,
            Some((min, max)) => {
                &&& exists|i: int| is_first_min(points@, i) && points@[i] == (min.x, min.y)
                &&& exists|i: int| is_last_max(points@, i) && points@[i] == (max.x, max.y)
            },
        },
{
    match minmax_places(points) {
        None => None,
        Some((lo, hi)) => {
            let min = Point(points[lo].0, points[lo].1);
            let max = Point(points[hi].0, points[hi].1);
            assert(is_first_min(points@, lo as int) && points@[lo as int] == (min.x, min.y));
            assert(is_last_max(points@, hi as int) && points@[hi as int] == (max.x, max.y));
            Some((min, max))
        },
    }
}

/// `n` is the smallest count of the points.
pub open spec fn is_min_count(points: Seq<(Timestamp, usize)>, n: usize) -> bool {
    &&& exists|i: int| 0 <= i < points.len() && (#[trigger] points[i]).1 == n
    &&& forall|j: int| 0 <= j < points.len() ==> n <= (#[trigger] points[j]).1
}

/// `n` is the largest count of the points.
pub open spec fn is_max_count(points: Seq<(Timestamp, usize)>, n: usize) -> bool {
    &&& exists|i: int| 0 <= i < points.len() && (#[trigger] points[i]).1 == n
    &&& forall|j: int| 0 <= j < points.len() ==> (#[trigger] points[j]).1 <= n
}

/// `b` is what the axes of a chart of `points` span.
pub open spec fn bounds_of(points: Seq<(Timestamp, usize)>, b: ChartBounds) -> bool {
    &&& exists|i: int| is_first_earliest(points, i) && points[i].0 == b.first
    &&& exists|i: int| is_last_latest(points, i) && points[i].0 == b.last
    &&& is_min_count(points, b.min)
    &&& is_max_count(points, b.max)
}

/// What the axes of a chart of the points span; `None` for a chart without points.
pub fn chart_bounds(points: &Vec<(Timestamp, usize)>) -> (r: Option<ChartBounds>)
    ensures
        match r {
            Some(b) => bounds_of(points@, b),
            None => points@.len() == 0,
        },
{
    let (min, max) = match minmax_by_key(points) {
        None => {
            return None;
        },
        Some(pair) => pair,
    };
    let mut first: usize = 0;
    let mut last: usize = 0;
    let mut n: usize = 1;
    while n < points.len()
        invariant
            1 <= n <= points.len(),
            is_first_earliest(points@.take(n as int), first as int),
            is_last_latest(points@.take(n as int), last as int),
        decreases points.len() - n,
    {
        let at = points[n].0.as_nanos();
        let ghost seen = points@.take(n as int);
        let ghost more = points@.take(n + 1);
        proof {
            assert forall|j: int| 0 <= j < n implies more[j] == seen[j] by {}
            assert(more[n as int] == points@[n as int]);
        }
        if at < points[first].0.as_nanos() {
            first = n;
        }
        if at >= points[last].0.as_nanos() {
            last = n;
        }
        proof {
            assert forall|j: int| 0 <= j < more.len() implies more[first as int].0.total_nanos() <= (
            #[trigger] more[j]).0.total_nanos() by {
                if j < n {
                    assert(seen[j] == more[j]);
                }
            }
            assert forall|j: int| 0 <= j < first implies more[first as int].0.total_nanos() < (
            #[trigger] more[j]).0.total_nanos() by {
                assert(seen[j] == more[j]);
            }
            assert forall|j: int| 0 <= j < more.len() implies (#[trigger] more[j]).0.total_nanos()
                <= more[last as int].0.total_nanos() by {
                if j < n {
                    assert(seen[j] == more[j]);
                }
            }
            assert forall|j: int| last < j < more.len() implies (#[trigger] more[j]).0.total_nanos()
                < more[last as int].0.total_nanos() by {
                if j < n {
                    assert(seen[j] == more[j]);
                }
            }
        }
        n = n + 1;
    }
    proof {
        assert(points@.take(n as int) =~= points@);
    }
    let b = ChartBounds { first: points[first].0, last: points[last].0, min: min.y, max: max.y };
    proof {
        assert(is_first_earliest(points@, first as int) && points@[first as int].0 == b.first);
        assert(is_last_latest(points@, last as int) && points@[last as int].0 == b.last);
        let lo = choose|i: int| is_first_min(points@, i) && points@[i] == (min.x, min.y);
        let hi = choose|i: int| is_last_max(points@, i) && points@[i] == (max.x, max.y);
        assert(points@[lo].1 == b.min);
        assert(points@[hi].1 == b.max);
    }
    Some(b)
}

/// The size of the title's font for a picture of `w` by `h` pixels.
pub fn title_font_size(w: u32, h: u32) -> (size: u32)
    ensures
        size == (w + h / 2) / 28,
{
    let sum: u64 = w as u64 + (h / 2) as u64;
    (sum / 28) as u32
}

/// The number of bytes of a picture of `x` by `y` pixels with three bytes to the
/// pixel, where that number fits 32 bits.
pub open spec fn bitmap_len_of(x: u32, y: u32) -> Option<usize> {
    if x * y * 3 <= u32::MAX {
        Some((x * y * 3) as usize)
    } else {
        None
    }
}

/// Makes `buf` a blank picture of `x` by `y` pixels: three zero bytes to the pixel,
/// and nothing else. Tells whether the picture is small enough; if it is not, `buf`
/// is left as it was.
pub fn create_bitmap_buffer(buf: &mut Vec<u8>, x: u32, y: u32) -> (ok: bool)
    ensures
        ok == (bitmap_len_of(x, y) is Some),
        ok ==> final(buf)@ == Seq::new(bitmap_len_of(x, y).unwrap() as nat, |i: int| 0u8),
        !ok ==> final(buf)@ == old(buf)@,
{
    assert((x as u64) * (y as u64) <= 0xffff_ffff * 0xffff_ffff) by (nonlinear_arith)
        requires
            x <= 0xffff_ffff,
            y <= 0xffff_ffff,
    ;
    let wide: u64 = x as u64 * y as u64;
    if wide > (u32::MAX / 3) as u64 {
        return false;
    }
    let len: usize = (wide * 3) as usize;
    buf.clear();
    let mut i: usize = 0;
    while i < len
        invariant
            i <= len,
            buf@ == Seq::new(i as nat, |k: int| 0u8),
        decreases len - i,
    {
        buf.push(0u8);
        assert(buf@ =~= Seq::new((i + 1) as nat, |k: int| 0u8));
        i = i + 1;
    }
    true
}

} // verus!
