//! Quadrant shifts: cyclic rotations that center and uncenter the
//! zero-frequency term of a spectrum.

use vstd::arithmetic::div_mod::{
    lemma_add_mod_noop, lemma_add_mod_noop_right, lemma_fundamental_div_mod,
    lemma_fundamental_div_mod_converse, lemma_mod_division_less_than_divisor,
    lemma_mod_multiples_vanish, lemma_multiply_divide_lt, lemma_small_mod,
};
use vstd::prelude::*;

use crate::buffer::{Complex, FreqImage};

verus! {

/// The cyclic quadrant shift of a row-major `w`-by-`h` sequence: the
/// sample at `(row, col)` moves to `((row + sh) % h, (col + sw) % w)`.
///
/// Stated destination-first: position `k` of the result holds the
/// source sample whose row and column are obtained by rotating back.
pub open spec fn quadrant_shift_spec<A>(s: Seq<A>, w: int, h: int, sw: int, sh: int) -> Seq<A> {
    Seq::new(s.len(), |k: int| s[((k / w + h - sh) % h) * w + ((k % w + w - sw) % w)])
}

/// The centering shift: the zero-frequency term at `(0, 0)` moves to
/// `(floor(w / 2), floor(h / 2))`.
pub open spec fn center_spec<A>(s: Seq<A>, w: int, h: int) -> Seq<A> {
    quadrant_shift_spec(s, w, h, w / 2, h / 2)
}

/// The uncentering shift, which rotates by `ceil(w / 2)` and
/// `ceil(h / 2)` and thereby exactly inverts [`center_spec`].
pub open spec fn uncenter_spec<A>(s: Seq<A>, w: int, h: int) -> Seq<A> {
    quadrant_shift_spec(s, w, h, w - w / 2, h - h / 2)
}

/// Rotating `x` backward by `s1` and then by `s2` inside `[0, m)` is
/// the identity when `s1 + s2` is a multiple of `m`.
proof fn lemma_mod_shift_cancel(x: int, m: int, s1: int, s2: int)
    requires
        0 < m,
        0 <= x < m,
        0 <= s1 <= m,
        0 <= s2 <= m,
        (s1 + s2) % m == 0,
    ensures
        ((x + m - s1) % m + m - s2) % m == x,
{
    let y = (x + m - s1) % m;
    lemma_mod_division_less_than_divisor(x + m - s1, m);
    // (y + m - s2) % m == (x + 2 * m - s1 - s2) % m
    lemma_add_mod_noop(x + m - s1, m - s2, m);
    lemma_small_mod(y as nat, m as nat);
    lemma_add_mod_noop_right(y, m - s2, m);
    // s1 + s2 is 0, m, or 2 * m
    let q = (s1 + s2) / m;
    lemma_fundamental_div_mod(s1 + s2, m);
    assert(s1 + s2 == m * q);
    assert(0 <= q <= 2) by (nonlinear_arith)
        requires
            0 < m,
            0 <= s1 + s2 <= 2 * m,
            s1 + s2 == m * q,
    ;
    // strip the multiple of m, then reduce the small remainder
    lemma_mod_multiples_vanish(2 - q, x, m);
    assert(m * (2 - q) + x == x + 2 * m - s1 - s2) by (nonlinear_arith)
        requires
            s1 + s2 == m * q,
    ;
    lemma_small_mod(x as nat, m as nat);
}

/// Row-major index arithmetic: `(r * w + c) / w == r` and
/// `(r * w + c) % w == c` whenever `0 <= c < w`.
pub(crate) proof fn lemma_row_major_decompose(r: int, c: int, w: int)
    requires
        0 < w,
        0 <= c < w,
    ensures
        (r * w + c) / w == r,
        (r * w + c) % w == c,
{
    lemma_fundamental_div_mod_converse(r * w + c, w, r, c);
}

/// A row-major index built from an in-range row and column is in range.
pub(crate) proof fn lemma_row_major_bound(r: int, c: int, w: int, h: int)
    by (nonlinear_arith)
    requires
        0 < w,
        0 < h,
        0 <= r < h,
        0 <= c < w,
    ensures
        0 <= r * w + c < w * h,
{
}

/// Applying a quadrant shift and then a second one whose offsets
/// complete the first to a multiple of each dimension restores the
/// original sequence.
proof fn lemma_shift_cancel<A>(s: Seq<A>, w: int, h: int, sw1: int, sh1: int, sw2: int, sh2: int)
    requires
        0 < w,
        0 < h,
        0 <= sw1 <= w,
        0 <= sh1 <= h,
        0 <= sw2 <= w,
        0 <= sh2 <= h,
        (sw1 + sw2) % w == 0,
        (sh1 + sh2) % h == 0,
        s.len() == w * h,
    ensures
        quadrant_shift_spec(quadrant_shift_spec(s, w, h, sw1, sh1), w, h, sw2, sh2) =~= s,
{
    let t = quadrant_shift_spec(s, w, h, sw1, sh1);
    let u = quadrant_shift_spec(t, w, h, sw2, sh2);
    assert forall|k: int| 0 <= k < s.len() implies u[k] == s[k] by {
        let r2 = k / w;
        let c2 = k % w;
        lemma_fundamental_div_mod(k, w);
        lemma_mod_division_less_than_divisor(k, w);
        lemma_multiply_divide_lt(k, w, h);
        let r1 = (r2 + h - sh2) % h;
        let c1 = (c2 + w - sw2) % w;
        lemma_mod_division_less_than_divisor(r2 + h - sh2, h);
        lemma_mod_division_less_than_divisor(c2 + w - sw2, w);
        lemma_row_major_bound(r1, c1, w, h);
        assert(u[k] == t[r1 * w + c1]);
        lemma_row_major_decompose(r1, c1, w);
        lemma_mod_shift_cancel(r2, h, sh2, sh1);
        lemma_mod_shift_cancel(c2, w, sw2, sw1);
        assert(t[r1 * w + c1] == s[r2 * w + c2]);
    }
}

/// The centering shift is exactly inverted by the uncentering shift,
/// for any positive dimensions, even or odd.
pub proof fn lemma_uncenter_inverts_center<A>(s: Seq<A>, w: int, h: int)
    requires
        0 < w,
        0 < h,
        s.len() == w * h,
    ensures
        uncenter_spec(center_spec(s, w, h), w, h) == s,
{
    assert(w % w == 0) by {
        lemma_mod_multiples_vanish(1, 0, w);
    }
    assert(h % h == 0) by {
        lemma_mod_multiples_vanish(1, 0, h);
    }
    lemma_shift_cancel(s, w, h, w / 2, h / 2, w - w / 2, h - h / 2);
}

/// When both dimensions are even, the centering shift is its own
/// inverse: applying it twice restores the original sequence.
pub proof fn lemma_center_involution_even<A>(s: Seq<A>, w: int, h: int)
    requires
        0 < w,
        0 < h,
        w % 2 == 0,
        h % 2 == 0,
        s.len() == w * h,
    ensures
        center_spec(center_spec(s, w, h), w, h) == s,
{
    assert(w / 2 + w / 2 == w);
    assert(h / 2 + h / 2 == h);
    assert(w % w == 0) by {
        lemma_mod_multiples_vanish(1, 0, w);
    }
    assert(h % h == 0) by {
        lemma_mod_multiples_vanish(1, 0, h);
    }
    lemma_shift_cancel(s, w, h, w / 2, h / 2, w / 2, h / 2);
}

/// For an odd width greater than one, centering twice is not the
/// identity: the sample at the origin of a witness buffer comes back
/// moved, so the involution of [`lemma_center_involution_even`] really
/// needs both dimensions even. The same argument applies to an odd
/// height, with the roles of the axes exchanged.
pub proof fn lemma_center_no_involution_odd_width(w: int, h: int)
    requires
        w % 2 == 1,
        w > 1,
        h > 0,
    ensures
        ({
            let s = Seq::new((w * h) as nat, |k: int| k);
            center_spec(center_spec(s, w, h), w, h) != s
        }),
{
    let s = Seq::new((w * h) as nat, |k: int| k);
    let t = center_spec(s, w, h);
    let u = center_spec(t, w, h);
    assert(w * h >= 2) by (nonlinear_arith)
        requires
            w > 1,
            h > 0,
    ;
    assert(0int / w == 0 && 0int % w == 0) by (nonlinear_arith)
        requires
            w > 0,
    ;
    let r1 = (0 + h - h / 2) % h;
    let c1 = (0 + w - w / 2) % w;
    lemma_mod_division_less_than_divisor(h - h / 2, h);
    lemma_small_mod((w - w / 2) as nat, w as nat);
    assert(c1 == w - w / 2);
    lemma_row_major_bound(r1, c1, w, h);
    assert(u[0] == t[r1 * w + c1]);
    lemma_row_major_decompose(r1, c1, w);
    let c2 = (c1 + w - w / 2) % w;
    // for odd w the two half shifts add up to one full turn plus one
    assert(c1 + w - w / 2 == w + 1);
    lemma_mod_multiples_vanish(1, 1, w);
    lemma_small_mod(1 as nat, w as nat);
    assert(c2 == 1);
    let r2 = (r1 + h - h / 2) % h;
    lemma_mod_division_less_than_divisor(r1 + h - h / 2, h);
    lemma_row_major_bound(r2, c2, w, h);
    assert(t[r1 * w + c1] == s[r2 * w + 1]);
    assert(r2 * w + 1 >= 1) by (nonlinear_arith)
        requires
            r2 >= 0,
            w > 0,
    ;
    assert(u[0] != s[0]);
}

/// A quadrant shift sends the source sample at `(row, col)` to
/// `((row + sh) % h, (col + sw) % w)`, as the spectrum-centering
/// convention demands.
pub proof fn lemma_shift_maps_source<A>(
    s: Seq<A>,
    w: int,
    h: int,
    sw: int,
    sh: int,
    row: int,
    col: int,
)
    requires
        0 < w,
        0 < h,
        0 <= sw <= w,
        0 <= sh <= h,
        0 <= row < h,
        0 <= col < w,
        s.len() == w * h,
    ensures
        quadrant_shift_spec(s, w, h, sw, sh)[((row + sh) % h) * w + ((col + sw) % w)] == s[row * w
            + col],
{
    let r2 = (row + sh) % h;
    let c2 = (col + sw) % w;
    lemma_mod_division_less_than_divisor(row + sh, h);
    lemma_mod_division_less_than_divisor(col + sw, w);
    lemma_row_major_bound(r2, c2, w, h);
    lemma_row_major_decompose(r2, c2, w);
    // rotating forward by sh and back by sh cancels
    lemma_add_mod_noop_right(r2, h - sh, h);
    lemma_add_mod_noop(row + sh, h - sh, h);
    lemma_small_mod(r2 as nat, h as nat);
    lemma_mod_multiples_vanish(1, row, h);
    lemma_small_mod(row as nat, h as nat);
    assert((r2 + h - sh) % h == row);
    lemma_add_mod_noop_right(c2, w - sw, w);
    lemma_add_mod_noop(col + sw, w - sw, w);
    lemma_small_mod(c2 as nat, w as nat);
    lemma_mod_multiples_vanish(1, col, w);
    lemma_small_mod(col as nat, w as nat);
    assert((c2 + w - sw) % w == col);
    lemma_row_major_bound(row, col, w, h);
}

/// The zero-frequency sample, at the origin of a row-major buffer,
/// moves to the exact center `(floor(w / 2), floor(h / 2))` under the
/// centering shift.
pub proof fn lemma_center_moves_origin<A>(s: Seq<A>, w: int, h: int)
    requires
        0 < w,
        0 < h,
        s.len() == w * h,
    ensures
        center_spec(s, w, h)[(h / 2) * w + w / 2] == s[0],
{
    lemma_shift_maps_source(s, w, h, w / 2, h / 2, 0, 0);
    lemma_small_mod((h / 2) as nat, h as nat);
    lemma_small_mod((w / 2) as nat, w as nat);
}

/// Cyclically rotates a row-major buffer by `shift_h` rows and
/// `shift_w` columns, into a fresh buffer.
fn quadrant_shift<T: Copy>(
    width: usize,
    height: usize,
    buffer: &Vec<T>,
    shift_w: usize,
    shift_h: usize,
) -> (r: Vec<T>)
    requires
        buffer@.len() == width * height,
        shift_w <= width,
        shift_h <= height,
    ensures
        r@ == quadrant_shift_spec(
            buffer@,
            width as int,
            height as int,
            shift_w as int,
            shift_h as int,
        ),
{
    let ghost gspec = quadrant_shift_spec(
        buffer@,
        width as int,
        height as int,
        shift_w as int,
        shift_h as int,
    );
    let mut out: Vec<T> = Vec::new();
    let n = buffer.len();
    for k in 0..n
        invariant
            n == buffer@.len(),
            n == width * height,
            shift_w <= width,
            shift_h <= height,
            gspec == quadrant_shift_spec(
                buffer@,
                width as int,
                height as int,
                shift_w as int,
                shift_h as int,
            ),
            out@.len() == k,
            forall|j: int| 0 <= j < k ==> #[trigger] out@[j] == gspec[j],
    {
        proof {
            assert(width > 0 && height > 0) by (nonlinear_arith)
                requires
                    k < width * height,
            ;
        }
        let r2 = k / width;
        let c2 = k % width;
        proof {
            lemma_mod_division_less_than_divisor(k as int, width as int);
            lemma_multiply_divide_lt(k as int, width as int, height as int);
        }
        let src_r = if r2 >= shift_h {
            r2 - shift_h
        } else {
            r2 + (height - shift_h)
        };
        let src_c = if c2 >= shift_w {
            c2 - shift_w
        } else {
            c2 + (width - shift_w)
        };
        proof {
            // the branches compute (r2 + height - shift_h) % height
            if r2 >= shift_h {
                lemma_mod_multiples_vanish(1, r2 - shift_h, height as int);
                lemma_small_mod((r2 - shift_h) as nat, height as nat);
            } else {
                lemma_small_mod((r2 + height - shift_h) as nat, height as nat);
            }
            assert(src_r == (r2 + height - shift_h) % (height as int));
            if c2 >= shift_w {
                lemma_mod_multiples_vanish(1, c2 - shift_w, width as int);
                lemma_small_mod((c2 - shift_w) as nat, width as nat);
            } else {
                lemma_small_mod((c2 + width - shift_w) as nat, width as nat);
            }
            assert(src_c == (c2 + width - shift_w) % (width as int));
            lemma_row_major_bound(src_r as int, src_c as int, width as int, height as int);
        }
        let src = src_r * width + src_c;
        out.push(buffer[src]);
    }
    proof {
        assert(out@ =~= gspec);
    }
    out
}

impl<T: Copy> FreqImage<T> {
    /// Shifts the zero-frequency term from `(0, 0)` to the center
    /// `(floor(width / 2), floor(height / 2))`, returning a fresh
    /// buffer and leaving the source untouched.
    pub fn fftshift(&self) -> (r: Self)
        requires
            self.wf(),
        ensures
            r.width == self.width,
            r.height == self.height,
            r.wf(),
            r.data@ == center_spec(self.data@, self.width as int, self.height as int),
    {
        let w = self.width as usize;
        let h = self.height as usize;
        let data = quadrant_shift(w, h, &self.data, w / 2, h / 2);
        FreqImage { width: self.width, height: self.height, data }
    }

    /// Shifts the zero-frequency term from the center back to `(0, 0)`,
    /// rotating by `ceil(width / 2)` and `ceil(height / 2)`; this is
    /// the exact inverse of [`Self::fftshift`] for any dimensions.
    pub fn ifftshift(&self) -> (r: Self)
        requires
            self.wf(),
        ensures
            r.width == self.width,
            r.height == self.height,
            r.wf(),
            r.data@ == uncenter_spec(self.data@, self.width as int, self.height as int),
    {
        let w = self.width as usize;
        let h = self.height as usize;
        let data = quadrant_shift(w, h, &self.data, w - w / 2, h - h / 2);
        FreqImage { width: self.width, height: self.height, data }
    }
}

} // verus!
