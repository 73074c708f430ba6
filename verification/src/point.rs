use vstd::prelude::*;

verus! {

/// An exact rational RGB color: the three components are `c0 / den`,
/// `c1 / den` and `c2 / den`.
///
/// The colorizer's formula (`colorFrac = i / n`, `countNorm = count / 10`,
/// `color = (colorFrac, 1 - countNorm, 1 - countNorm * colorFrac)`) only ever
/// divides integers, so the color of a point is a triple of rationals with the
/// common denominator `10 * n`. Holding the numerators and the denominator
/// exactly keeps the colorizer a verified integer computation; the renderer
/// divides them into floats at the boundary. Components are deliberately not
/// clamped to a display range: `c1` and `c2` go negative once a point has more
/// than ten duplicates.
#[derive(Clone, Copy, PartialEq, Eq, Structural, Debug)]
pub struct Color {
    pub c0: i128,
    pub c1: i128,
    pub c2: i128,
    pub den: i128,
}

/// One output point of the pipeline: a distinct byte triplet, packed into its
/// 24-bit `key`, together with the number of extra occurrences of that triplet
/// in the input (`count`, zero for a triplet seen once) and the exact color
/// assigned by the colorizer.
///
/// The Cartesian position is not stored: it is a fixed trigonometric function
/// of `key` alone, and the integer inputs of that projection are recovered by
/// `crate::pack::project_inputs`. The renderer evaluates the sines and
/// cosines on those inputs when it builds its vertex buffer.
#[derive(Clone, Copy, PartialEq, Eq, Structural, Debug)]
pub struct Point {
    pub key: u32,
    pub count: u32,
    pub color: Color,
}

impl Color {
    /// The color every point carries before the colorizer stage runs: exact
    /// black, `(0/1, 0/1, 0/1)`.
    pub fn black() -> (c: Color)
        ensures
            c == Color::black_spec(),
    {
        Color { c0: 0, c1: 0, c2: 0, den: 1 }
    }

    /// Specification value of `black`.
    pub open spec fn black_spec() -> Color {
        Color { c0: 0, c1: 0, c2: 0, den: 1 }
    }
}

} // verus!
