use vstd::prelude::*;
use vstd::arithmetic::mul::lemma_mul_nonnegative;
use vstd::arithmetic::mul::lemma_mul_upper_bound;
use crate::point::{Color, Point};

verus! {

/// The exact color of the point at 0-based output index `i` among `n` points,
/// with `count` extra occurrences. The colorizer's formula is
/// ```text
/// countNorm = count / 10          (unclamped)
/// colorFrac = i / n
/// color     = (colorFrac, 1 - countNorm, 1 - countNorm * colorFrac)
/// ```
/// Over the common denominator `10 * n` the three components are the
/// rationals `10*i / 10n`, `(10n - n*count) / 10n` and `(10n - count*i) / 10n`.
/// No clamping: with more than ten duplicates the last two numerators go
/// negative, by design.
pub open spec fn color_spec(i: int, count: int, n: int) -> Color {
    Color {
        c0: (10 * i) as i128,
        c1: (10 * n - n * count) as i128,
        c2: (10 * n - count * i) as i128,
        den: (10 * n) as i128,
    }
}

/// Bounds on the colorizer's products: with an index and a point total that
/// fit in 64 bits and a count that fits in 32 bits, every numerator of
/// `color_spec` fits comfortably in an `i128`.
proof fn lemma_color_products_bounded(i: int, count: int, n: int)
    requires
        0 <= i <= 0xFFFF_FFFF_FFFF_FFFF,
        0 <= n <= 0xFFFF_FFFF_FFFF_FFFF,
        0 <= count <= 0xFFFF_FFFF,
    ensures
        0 <= n * count <= 0xFFFF_FFFF_FFFF_FFFF * 0xFFFF_FFFF,
        0 <= count * i <= 0xFFFF_FFFF * 0xFFFF_FFFF_FFFF_FFFF,
{
    lemma_mul_nonnegative(n, count);
    lemma_mul_nonnegative(count, i);
    lemma_mul_upper_bound(n, 0xFFFF_FFFF_FFFF_FFFF, count, 0xFFFF_FFFF);
    lemma_mul_upper_bound(count, 0xFFFF_FFFF, i, 0xFFFF_FFFF_FFFF_FFFF);
}

/// Derives the color of every point from its duplicate count and its 0-based
/// position in the final output order, leaving keys and counts untouched.
/// The point at index `i` of the `n` points gets `color_spec(i, count, n)`.
pub fn colorize(points: Vec<Point>) -> (r: Vec<Point>)
    ensures
        r@.len() == points@.len(),
        forall|j: int|
            0 <= j < r@.len() ==> (#[trigger] r@[j]).key == points@[j].key && r@[j].count
                == points@[j].count && r@[j].color == color_spec(
                j,
                points@[j].count as int,
                points@.len() as int,
            ),
{
    let n: usize = points.len();
    let mut out: Vec<Point> = Vec::new();
    for i in 0..n
        invariant
            n == points@.len(),
            out@.len() == i,
            forall|j: int|
                0 <= j < i ==> (#[trigger] out@[j]).key == points@[j].key && out@[j].count
                    == points@[j].count && out@[j].color == color_spec(
                    j,
                    points@[j].count as int,
                    points@.len() as int,
                ),
    {
        let p = points[i];
        proof {
            lemma_color_products_bounded(i as int, p.count as int, n as int);
        }
        let count_w: i128 = p.count as i128;
        let n_w: i128 = n as i128;
        let i_w: i128 = i as i128;
        let color = Color {
            c0: 10 * i_w,
            c1: 10 * n_w - n_w * count_w,
            c2: 10 * n_w - count_w * i_w,
            den: 10 * n_w,
        };
        out.push(Point { key: p.key, count: p.count, color });
    }
    out
}

} // verus!
