//! Radial frequency masks and element-wise mask application.
//!
//! A mask weight is an exact rational in `[0, 1]`. The geometry that
//! picks each pixel's weight — squared distance from the pixel-center
//! of the image against the squared inner and outer radii — is carried
//! out in exact integer arithmetic: distances are held in quarter
//! units (the geometric center lies on half-integer coordinates) and
//! radii in millionths, since cutoff and smoothing are given in
//! thousandths of the image diagonal.

use vstd::prelude::*;

use crate::buffer::{Complex, FreqError, FreqImage};

verus! {

/// One radial mask weight, an exact rational in `[0, 1]`.
///
/// A `Knee { num, den }` weight has value `(num / den)^2`: the
/// quadratic transition between the pass and stop bands. Its
/// complement `KneeComplement { num, den }` has value
/// `1 - (num / den)^2`.
#[derive(Clone, Copy, Debug, PartialEq, Eq)]
pub enum Weight {
    /// Weight `1.0`: the frequency passes unattenuated.
    One,
    /// Weight `0.0`: the frequency is blocked.
    Zero,
    /// The quadratic knee `(num / den)^2`, with `0 < num < den`.
    Knee { num: u128, den: u128 },
    /// The complement `1 - (num / den)^2`, with `0 < num < den`.
    KneeComplement { num: u128, den: u128 },
}

/// The numerator of a weight's value as an exact rational.
pub open spec fn weight_num(m: Weight) -> int {
    match m {
        Weight::One => 1,
        Weight::Zero => 0,
        Weight::Knee { num, den } => num * num,
        Weight::KneeComplement { num, den } => den * den - num * num,
    }
}

/// The denominator of a weight's value as an exact rational.
pub open spec fn weight_den(m: Weight) -> int {
    match m {
        Weight::One => 1,
        Weight::Zero => 1,
        Weight::Knee { num, den } => den * den,
        Weight::KneeComplement { num, den } => den * den,
    }
}

/// A valid weight: knees lie strictly between the two bands.
pub open spec fn weight_wf(m: Weight) -> bool {
    match m {
        Weight::One => true,
        Weight::Zero => true,
        Weight::Knee { num, den } => 0 < num < den,
        Weight::KneeComplement { num, den } => 0 < num < den,
    }
}

/// The pointwise complement `1 - value`.
pub open spec fn complement(m: Weight) -> Weight {
    match m {
        Weight::One => Weight::Zero,
        Weight::Zero => Weight::One,
        Weight::Knee { num, den } => Weight::KneeComplement { num, den },
        Weight::KneeComplement { num, den } => Weight::Knee { num, den },
    }
}

/// The squared image diagonal `w^2 + h^2`.
pub open spec fn diag_sq(w: int, h: int) -> int {
    w * w + h * h
}

/// Four times the squared distance of pixel `(row, col)` from the
/// geometric center `((w - 1) / 2, (h - 1) / 2)` of the image — the
/// center uses pixel-center coordinates, so distances are exact in
/// quarter units.
pub open spec fn dist_sq_quarters(w: int, h: int, row: int, col: int) -> int {
    (w - 1 - 2 * col) * (w - 1 - 2 * col) + (h - 1 - 2 * row) * (h - 1 - 2 * row)
}

/// The squared inner radius `(max(0, cutoff - smoothing / 2) * diag)^2`
/// scaled by `4 * 10^6`, for cutoff and smoothing in thousandths of
/// the diagonal.
pub open spec fn inner_radius_scaled(w: int, h: int, cutoff: int, smoothing: int) -> int {
    let edge = if 2 * cutoff - smoothing > 0 {
        2 * cutoff - smoothing
    } else {
        0
    };
    edge * edge * diag_sq(w, h)
}

/// The squared outer radius `((cutoff + smoothing / 2) * diag)^2`
/// scaled by `4 * 10^6`.
pub open spec fn outer_radius_scaled(w: int, h: int, cutoff: int, smoothing: int) -> int {
    (2 * cutoff + smoothing) * (2 * cutoff + smoothing) * diag_sq(w, h)
}

/// The classification of pixel `(row, col)` against two scaled squared
/// radii `a <= b`: one inside `a`, zero outside `b`, and the quadratic
/// knee `((b - d^2) / (b - a))^2` in between, with the squared distance
/// `d^2` brought to the same scale of `4 * 10^6`.
pub open spec fn classify_weight(w: int, h: int, a: int, b: int, row: int, col: int) -> Weight {
    let q = 1000000 * dist_sq_quarters(w, h, row, col);
    if q <= a {
        Weight::One
    } else if q >= b {
        Weight::Zero
    } else {
        Weight::Knee { num: (b - q) as u128, den: (b - a) as u128 }
    }
}

/// The low-pass weight of pixel `(row, col)`: one inside the inner
/// radius, zero outside the outer radius, and the quadratic knee
/// `((outer^2 - d^2) / (outer^2 - inner^2))^2` in between.
pub open spec fn low_weight(
    w: int,
    h: int,
    cutoff: int,
    smoothing: int,
    row: int,
    col: int,
) -> Weight {
    classify_weight(
        w,
        h,
        inner_radius_scaled(w, h, cutoff, smoothing),
        outer_radius_scaled(w, h, cutoff, smoothing),
        row,
        col,
    )
}

/// The high-pass weight of pixel `(row, col)`: the exact pointwise
/// complement of the low-pass weight for the same parameters.
pub open spec fn high_weight(w: int, h: int, cutoff: int, smoothing: int, row: int, col: int) -> Weight {
    complement(low_weight(w, h, cutoff, smoothing, row, col))
}

/// Two weights whose rational values sum exactly to one, stated by
/// cross-multiplication.
pub open spec fn weights_sum_to_one(a: Weight, b: Weight) -> bool {
    weight_num(a) * weight_den(b) + weight_num(b) * weight_den(a) == weight_den(a) * weight_den(b)
}

/// Mask complementarity: for identical cutoff and smoothing, the
/// low-pass and high-pass weights of every pixel are exact
/// complements, and their rational values sum to one.
pub proof fn lemma_mask_complementarity(
    w: int,
    h: int,
    cutoff: int,
    smoothing: int,
    row: int,
    col: int,
)
    ensures
        high_weight(w, h, cutoff, smoothing, row, col) == complement(
            low_weight(w, h, cutoff, smoothing, row, col),
        ),
        weights_sum_to_one(
            low_weight(w, h, cutoff, smoothing, row, col),
            high_weight(w, h, cutoff, smoothing, row, col),
        ),
{
    let l = low_weight(w, h, cutoff, smoothing, row, col);
    match l {
        Weight::One => {},
        Weight::Zero => {},
        Weight::Knee { num, den } => {
            assert(num * num * (den * den) + (den * den - num * num) * (den * den) == (den * den)
                * (den * den)) by (nonlinear_arith);
        },
        Weight::KneeComplement { num, den } => {
            assert((den * den - num * num) * (den * den) + num * num * (den * den) == (den * den)
                * (den * den)) by (nonlinear_arith);
        },
    }
}

/// A weight of a pair of masks built for a band-pass filter: the
/// low-pass weight at the high cutoff and the high-pass weight at the
/// low cutoff, whose product is the band-pass value.
#[derive(Clone, Copy, Debug, PartialEq, Eq)]
pub struct BandWeight {
    /// The low-pass factor, taken at the high cutoff.
    pub low: Weight,
    /// The high-pass factor, taken at the low cutoff.
    pub high: Weight,
}

/// The numerator of a band weight's value: the product of its factors.
pub open spec fn band_num(b: BandWeight) -> int {
    weight_num(b.low) * weight_num(b.high)
}

/// The denominator of a band weight's value.
pub open spec fn band_den(b: BandWeight) -> int {
    weight_den(b.low) * weight_den(b.high)
}

/// Band-pass decomposition: the band weight of every pixel is, as an
/// exact rational, the product of the low-pass weight at the high
/// cutoff and the high-pass weight at the low cutoff; and that product
/// still lies in `[0, 1]` whenever its factors do.
pub proof fn lemma_band_pass_decomposition(
    w: int,
    h: int,
    low_cutoff: int,
    high_cutoff: int,
    smoothing: int,
    row: int,
    col: int,
)
    ensures
        ({
            let lp = low_weight(w, h, high_cutoff, smoothing, row, col);
            let hp = high_weight(w, h, low_cutoff, smoothing, row, col);
            let b = BandWeight { low: lp, high: hp };
            &&& band_num(b) == weight_num(lp) * weight_num(hp)
            &&& band_den(b) == weight_den(lp) * weight_den(hp)
            &&& weight_wf(lp) && weight_wf(hp) ==> 0 <= band_num(b) <= band_den(b)
        }),
{
    let lp = low_weight(w, h, high_cutoff, smoothing, row, col);
    let hp = high_weight(w, h, low_cutoff, smoothing, row, col);
    if weight_wf(lp) && weight_wf(hp) {
        lemma_weight_value_in_unit(lp);
        lemma_weight_value_in_unit(hp);
        assert(0 <= weight_num(lp) * weight_num(hp) <= weight_den(lp) * weight_den(hp))
            by (nonlinear_arith)
            requires
                0 <= weight_num(lp) <= weight_den(lp),
                0 <= weight_num(hp) <= weight_den(hp),
        ;
    }
}

/// A valid weight's rational value lies in `[0, 1]`: the numerator is
/// between zero and the (positive) denominator.
pub proof fn lemma_weight_value_in_unit(m: Weight)
    requires
        weight_wf(m),
    ensures
        0 < weight_den(m),
        0 <= weight_num(m) <= weight_den(m),
{
    match m {
        Weight::One => {},
        Weight::Zero => {},
        Weight::Knee { num, den } => {
            assert(0 < num * num <= den * den) by (nonlinear_arith)
                requires
                    0 < num < den,
            ;
        },
        Weight::KneeComplement { num, den } => {
            assert(0 < num * num <= den * den) by (nonlinear_arith)
                requires
                    0 < num < den,
            ;
        },
    }
}

/// Computes the exact scaled squared distance of one pixel from the
/// geometric center and classifies it against the scaled radii.
fn radial_weight(width: u32, height: u32, a: u128, b: u128, row: usize, col: usize) -> (m: Weight)
    requires
        row < height,
        col < width,
        a <= b,
    ensures
        m == classify_weight(
            width as int,
            height as int,
            a as int,
            b as int,
            row as int,
            col as int,
        ),
{
    // |w - 1 - 2 * col| and |h - 1 - 2 * row|, in half units
    let tw = 2 * (col as u64) + 1;
    let wex = width as u64;
    let dx = if tw >= wex {
        tw - wex
    } else {
        wex - tw
    };
    let th = 2 * (row as u64) + 1;
    let hex = height as u64;
    let dy = if th >= hex {
        th - hex
    } else {
        hex - th
    };
    proof {
        assert((dx as int) * (dx as int) == (width - 1 - 2 * (col as int)) * (width - 1 - 2 * (
        col as int))) by (nonlinear_arith)
            requires
                dx == width - 1 - 2 * (col as int) || dx == 2 * (col as int) + 1 - width,
        ;
        assert((dy as int) * (dy as int) == (height - 1 - 2 * (row as int)) * (height - 1 - 2 * (
        row as int))) by (nonlinear_arith)
            requires
                dy == height - 1 - 2 * (row as int) || dy == 2 * (row as int) + 1 - height,
        ;
        assert((dx as int) * (dx as int) <= 0x4_0000_0000_0000_0000) by (nonlinear_arith)
            requires
                dx <= 0x2_0000_0000,
        ;
        assert((dy as int) * (dy as int) <= 0x4_0000_0000_0000_0000) by (nonlinear_arith)
            requires
                dy <= 0x2_0000_0000,
        ;
    }
    let dxq = (dx as u128) * (dx as u128);
    let dyq = (dy as u128) * (dy as u128);
    let q = 1000000u128 * (dxq + dyq);
    if q <= a {
        Weight::One
    } else if q >= b {
        Weight::Zero
    } else {
        Weight::Knee { num: b - q, den: b - a }
    }
}

/// Turns a weight into its pointwise complement `1 - value`.
fn complement_weight(m: Weight) -> (r: Weight)
    ensures
        r == complement(m),
{
    match m {
        Weight::One => Weight::Zero,
        Weight::Zero => Weight::One,
        Weight::Knee { num, den } => Weight::KneeComplement { num, den },
        Weight::KneeComplement { num, den } => Weight::Knee { num, den },
    }
}

impl<T: Copy> FreqImage<T> {
    /// Builds a low-pass mask for a centered spectrum: weight one
    /// within `cutoff - smoothing / 2` of the center, weight zero
    /// beyond `cutoff + smoothing / 2`, and a quadratic knee between,
    /// with both parameters in thousandths of the image diagonal.
    ///
    /// Position `k` of the mask belongs to the pixel in row `k / width`
    /// and column `k % width`, matching the buffer's row-major layout.
    pub fn low_pass_mask(&self, cutoff_milli: u32, smoothing_milli: u32) -> (r: Vec<Weight>)
        requires
            self.wf(),
            cutoff_milli <= 1000000,
            smoothing_milli <= 1000000,
        ensures
            r@.len() == self.data@.len(),
            forall|k: int|
                0 <= k < r@.len() ==> (#[trigger] r@[k]) == low_weight(
                    self.width as int,
                    self.height as int,
                    cutoff_milli as int,
                    smoothing_milli as int,
                    k / self.width as int,
                    k % self.width as int,
                ),
            forall|k: int| 0 <= k < r@.len() ==> weight_wf(#[trigger] r@[k]),
    {
        let (a, b) = scaled_radii(self.width, self.height, cutoff_milli, smoothing_milli);
        let w = self.width;
        let h = self.height;
        let wu = w as usize;
        let mut out: Vec<Weight> = Vec::new();
        let n = self.data.len();
        for k in 0..n
            invariant
                n == self.data@.len(),
                self.wf(),
                w == self.width,
                h == self.height,
                wu == w as usize,
                a <= b,
                a == inner_radius_scaled(
                    w as int,
                    h as int,
                    cutoff_milli as int,
                    smoothing_milli as int,
                ),
                b == outer_radius_scaled(
                    w as int,
                    h as int,
                    cutoff_milli as int,
                    smoothing_milli as int,
                ),
                out@.len() == k,
                forall|j: int|
                    0 <= j < k ==> (#[trigger] out@[j]) == low_weight(
                        w as int,
                        h as int,
                        cutoff_milli as int,
                        smoothing_milli as int,
                        j / w as int,
                        j % w as int,
                    ),
                forall|j: int| 0 <= j < k ==> weight_wf(#[trigger] out@[j]),
        {
            proof {
                assert(w > 0 && h > 0) by (nonlinear_arith)
                    requires
                        k < w * h,
                ;
                vstd::arithmetic::div_mod::lemma_mod_division_less_than_divisor(
                    k as int,
                    w as int,
                );
                vstd::arithmetic::div_mod::lemma_multiply_divide_lt(k as int, w as int, h as int);
            }
            let row = k / wu;
            let col = k % wu;
            let m = radial_weight(w, h, a, b, row, col);
            proof {
                lemma_classified_weight_wf(
                    w as int,
                    h as int,
                    a as int,
                    b as int,
                    row as int,
                    col as int,
                );
            }
            out.push(m);
        }
        out
    }

    /// Builds a high-pass mask for a centered spectrum: the exact
    /// pointwise complement of the low-pass mask for the same cutoff
    /// and smoothing, both in thousandths of the image diagonal.
    pub fn high_pass_mask(&self, cutoff_milli: u32, smoothing_milli: u32) -> (r: Vec<Weight>)
        requires
            self.wf(),
            cutoff_milli <= 1000000,
            smoothing_milli <= 1000000,
        ensures
            r@.len() == self.data@.len(),
            forall|k: int|
                0 <= k < r@.len() ==> (#[trigger] r@[k]) == high_weight(
                    self.width as int,
                    self.height as int,
                    cutoff_milli as int,
                    smoothing_milli as int,
                    k / self.width as int,
                    k % self.width as int,
                ),
            forall|k: int| 0 <= k < r@.len() ==> weight_wf(#[trigger] r@[k]),
    {
        let low = self.low_pass_mask(cutoff_milli, smoothing_milli);
        let mut out: Vec<Weight> = Vec::new();
        let n = low.len();
        for k in 0..n
            invariant
                n == low@.len(),
                low@.len() == self.data@.len(),
                forall|j: int|
                    0 <= j < n ==> (#[trigger] low@[j]) == low_weight(
                        self.width as int,
                        self.height as int,
                        cutoff_milli as int,
                        smoothing_milli as int,
                        j / self.width as int,
                        j % self.width as int,
                    ),
                forall|j: int| 0 <= j < n ==> weight_wf(#[trigger] low@[j]),
                out@.len() == k,
                forall|j: int|
                    0 <= j < k ==> (#[trigger] out@[j]) == high_weight(
                        self.width as int,
                        self.height as int,
                        cutoff_milli as int,
                        smoothing_milli as int,
                        j / self.width as int,
                        j % self.width as int,
                    ),
                forall|j: int| 0 <= j < k ==> weight_wf(#[trigger] out@[j]),
        {
            out.push(complement_weight(low[k]));
        }
        out
    }

    /// Builds a band-pass mask passing frequencies between the two
    /// cutoffs (in thousandths of the diagonal): at every pixel, the
    /// low-pass weight at `high_cutoff_milli` paired with the
    /// high-pass weight at `low_cutoff_milli`, whose product is the
    /// band-pass value. Signals `InvalidRange`, and produces no mask,
    /// if and only if `low_cutoff_milli >= high_cutoff_milli`.
    pub fn band_pass_mask(
        &self,
        low_cutoff_milli: u32,
        high_cutoff_milli: u32,
        smoothing_milli: u32,
    ) -> (r: Result<Vec<BandWeight>, FreqError>)
        requires
            self.wf(),
            low_cutoff_milli <= 1000000,
            high_cutoff_milli <= 1000000,
            smoothing_milli <= 1000000,
        ensures
            r is Err <==> low_cutoff_milli >= high_cutoff_milli,
            r matches Err(e) ==> e == FreqError::InvalidRange,
            r matches Ok(m) ==> {
                &&& m@.len() == self.data@.len()
                &&& forall|k: int|
                    0 <= k < m@.len() ==> (#[trigger] m@[k]) == (BandWeight {
                        low: low_weight(
                            self.width as int,
                            self.height as int,
                            high_cutoff_milli as int,
                            smoothing_milli as int,
                            k / self.width as int,
                            k % self.width as int,
                        ),
                        high: high_weight(
                            self.width as int,
                            self.height as int,
                            low_cutoff_milli as int,
                            smoothing_milli as int,
                            k / self.width as int,
                            k % self.width as int,
                        ),
                    })
            },
    {
        if low_cutoff_milli >= high_cutoff_milli {
            return Err(FreqError::InvalidRange);
        }
        let low = self.low_pass_mask(high_cutoff_milli, smoothing_milli);
        let high = self.high_pass_mask(low_cutoff_milli, smoothing_milli);
        let mut out: Vec<BandWeight> = Vec::new();
        let n = low.len();
        for k in 0..n
            invariant
                n == low@.len(),
                low@.len() == self.data@.len(),
                high@.len() == self.data@.len(),
                forall|j: int|
                    0 <= j < n ==> (#[trigger] low@[j]) == low_weight(
                        self.width as int,
                        self.height as int,
                        high_cutoff_milli as int,
                        smoothing_milli as int,
                        j / self.width as int,
                        j % self.width as int,
                    ),
                forall|j: int|
                    0 <= j < n ==> (#[trigger] high@[j]) == high_weight(
                        self.width as int,
                        self.height as int,
                        low_cutoff_milli as int,
                        smoothing_milli as int,
                        j / self.width as int,
                        j % self.width as int,
                    ),
                out@.len() == k,
                forall|j: int|
                    0 <= j < k ==> (#[trigger] out@[j]) == (BandWeight {
                        low: low_weight(
                            self.width as int,
                            self.height as int,
                            high_cutoff_milli as int,
                            smoothing_milli as int,
                            j / self.width as int,
                            j % self.width as int,
                        ),
                        high: high_weight(
                            self.width as int,
                            self.height as int,
                            low_cutoff_milli as int,
                            smoothing_milli as int,
                            j / self.width as int,
                            j % self.width as int,
                        ),
                    }),
        {
            out.push(BandWeight { low: low[k], high: high[k] });
        }
        Ok(out)
    }

    /// Multiplies every sample by the weight at the same position, in
    /// place, through the caller's scale function. Signals
    /// `DimensionMismatch`, and leaves the buffer unmodified, if and
    /// only if the mask's length differs from the buffer's.
    pub fn apply_filter<M: Copy, F: Fn(Complex<T>, M) -> Complex<T>>(
        &mut self,
        mask: &Vec<M>,
        scale: F,
    ) -> (r: Result<(), FreqError>)
        requires
            old(self).wf(),
            forall|c: Complex<T>, m: M| call_requires(scale, (c, m)),
        ensures
            final(self).width == old(self).width,
            final(self).height == old(self).height,
            final(self).wf(),
            r is Ok <==> mask@.len() == old(self).data@.len(),
            r matches Err(e) ==> e == FreqError::DimensionMismatch && *final(self) == *old(self),
            r is Ok ==> {
                &&& final(self).data@.len() == old(self).data@.len()
                &&& forall|k: int|
                    0 <= k < old(self).data@.len() ==> call_ensures(
                        scale,
                        (old(self).data@[k], mask@[k]),
                        #[trigger] final(self).data@[k],
                    )
            },
    {
        if mask.len() != self.data.len() {
            return Err(FreqError::DimensionMismatch);
        }
        let mut data: Vec<Complex<T>> = Vec::new();
        let n = self.data.len();
        for k in 0..n
            invariant
                n == self.data@.len(),
                self.wf(),
                self == old(self),
                mask@.len() == n,
                forall|c: Complex<T>, m: M| call_requires(scale, (c, m)),
                data@.len() == k,
                forall|j: int|
                    0 <= j < k ==> call_ensures(
                        scale,
                        (self.data@[j], mask@[j]),
                        #[trigger] data@[j],
                    ),
        {
            data.push(scale(self.data[k], mask[k]));
        }
        self.data = data;
        Ok(())
    }
}

/// A classified weight is valid: its knee, when taken, lies strictly
/// between the two bands.
proof fn lemma_classified_weight_wf(w: int, h: int, a: int, b: int, row: int, col: int)
    requires
        0 <= a <= b,
        b <= u128::MAX,
    ensures
        weight_wf(classify_weight(w, h, a, b, row, col)),
{
    let q = 1000000 * dist_sq_quarters(w, h, row, col);
    if a < q < b {
        assert(0 < b - q < b - a);
    }
}

/// Filter identity: applying an all-ones mask through a scale function
/// that returns its sample unchanged on the unit weight leaves the
/// buffer unchanged.
pub proof fn lemma_filter_identity<T, M, F: Fn(Complex<T>, M) -> Complex<T>>(
    f: F,
    before: Seq<Complex<T>>,
    after: Seq<Complex<T>>,
    mask: Seq<M>,
    one: M,
)
    requires
        after.len() == before.len(),
        mask.len() == before.len(),
        forall|k: int| 0 <= k < mask.len() ==> mask[k] == one,
        forall|k: int|
            0 <= k < before.len() ==> call_ensures(f, (before[k], mask[k]), #[trigger] after[k]),
        forall|c: Complex<T>, r: Complex<T>| #[trigger] call_ensures(f, (c, one), r) ==> r == c,
    ensures
        after == before,
{
    assert forall|k: int| 0 <= k < before.len() implies after[k] == before[k] by {
        assert(call_ensures(f, (before[k], one), after[k]));
    }
    assert(after =~= before);
}

/// Filter annihilation: applying an all-zero mask through a scale
/// function that returns the zero sample on the zero weight zeroes
/// every sample of the buffer.
pub proof fn lemma_filter_zero<T, M, F: Fn(Complex<T>, M) -> Complex<T>>(
    f: F,
    before: Seq<Complex<T>>,
    after: Seq<Complex<T>>,
    mask: Seq<M>,
    zero: M,
    zero_sample: Complex<T>,
)
    requires
        after.len() == before.len(),
        mask.len() == before.len(),
        forall|k: int| 0 <= k < mask.len() ==> mask[k] == zero,
        forall|k: int|
            0 <= k < before.len() ==> call_ensures(f, (before[k], mask[k]), #[trigger] after[k]),
        forall|c: Complex<T>, r: Complex<T>|
            #[trigger] call_ensures(f, (c, zero), r) ==> r == zero_sample,
    ensures
        forall|k: int| 0 <= k < after.len() ==> after[k] == zero_sample,
{
    assert forall|k: int| 0 <= k < after.len() implies after[k] == zero_sample by {
        assert(call_ensures(f, (before[k], zero), after[k]));
    }
}

/// Computes the squared inner and outer radii in the common scale of
/// `4 * 10^6` times the squared distance, in exact integers.
fn scaled_radii(width: u32, height: u32, cutoff_milli: u32, smoothing_milli: u32) -> (r: (
    u128,
    u128,
))
    requires
        cutoff_milli <= 1000000,
        smoothing_milli <= 1000000,
    ensures
        r.0 == inner_radius_scaled(
            width as int,
            height as int,
            cutoff_milli as int,
            smoothing_milli as int,
        ),
        r.1 == outer_radius_scaled(
            width as int,
            height as int,
            cutoff_milli as int,
            smoothing_milli as int,
        ),
        r.0 <= r.1,
{
    proof {
        assert((width as int) * (width as int) + (height as int) * (height as int)
            <= 0x2_0000_0000_0000_0000) by (nonlinear_arith)
            requires
                width <= 0x1_0000_0000,
                height <= 0x1_0000_0000,
        ;
    }
    let d = (width as u128) * (width as u128) + (height as u128) * (height as u128);
    let c2 = 2 * (cutoff_milli as u128);
    let s = smoothing_milli as u128;
    let edge = if c2 > s {
        c2 - s
    } else {
        0
    };
    let outer_edge = c2 + s;
    proof {
        assert(edge * edge <= outer_edge * outer_edge && outer_edge * outer_edge
            <= 9000000000000 && edge * edge * d <= outer_edge * outer_edge * d && outer_edge
            * outer_edge * d <= u128::MAX) by (nonlinear_arith)
            requires
                0 <= edge <= outer_edge,
                outer_edge <= 3000000,
                0 <= d <= 0x2_0000_0000_0000_0000,
        ;
    }
    let a = edge * edge * d;
    let b = outer_edge * outer_edge * d;
    (a, b)
}

} // verus!
