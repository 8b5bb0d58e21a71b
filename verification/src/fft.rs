//! The separable 2D spectral transform: independent 1D transforms over
//! the rows, a transposition so the columns become contiguous rows,
//! 1D transforms over those, and a transposition back.
//!
//! The 1D transform itself is an injected primitive: the caller hands
//! in a function that maps one row to its transform (unnormalized, same
//! length, either direction). The buffer discipline around it — row
//! extraction, transposition, reassembly, and the final normalization
//! pass of the inverse — is verified here.

use vstd::arithmetic::mul::lemma_mul_inequality;
use vstd::prelude::*;

use crate::buffer::{Complex, FreqImage};
use crate::shift::{lemma_row_major_bound, lemma_row_major_decompose};

verus! {

/// The transposition of a row-major `w`-by-`h` sequence: position
/// `col * h + row` of the result holds the source sample at
/// `row * w + col`.
pub open spec fn transpose_spec<A>(s: Seq<A>, w: int, h: int) -> Seq<A> {
    Seq::new(s.len(), |k: int| s[(k % h) * w + k / h])
}

/// Rearranges a row-major `width`-by-`height` matrix so that each
/// column becomes a contiguous row of the result.
pub fn transpose<T: Copy>(width: usize, height: usize, matrix: &Vec<T>) -> (r: Vec<T>)
    requires
        matrix@.len() == width * height,
    ensures
        r@ == transpose_spec(matrix@, width as int, height as int),
        r@.len() == matrix@.len(),
{
    let ghost gspec = transpose_spec(matrix@, width as int, height as int);
    let mut out: Vec<T> = Vec::new();
    let n = matrix.len();
    for k in 0..n
        invariant
            n == matrix@.len(),
            n == width * height,
            gspec == transpose_spec(matrix@, width as int, height as int),
            out@.len() == k,
            forall|j: int| 0 <= j < k ==> #[trigger] out@[j] == gspec[j],
    {
        proof {
            assert(width > 0 && height > 0 && width * height == height * width)
                by (nonlinear_arith)
                requires
                    k < width * height,
            ;
            vstd::arithmetic::div_mod::lemma_mod_division_less_than_divisor(
                k as int,
                height as int,
            );
            vstd::arithmetic::div_mod::lemma_multiply_divide_lt(k as int, height as int,
                width as int);
            lemma_row_major_bound(k as int % height as int, k as int / height as int,
                width as int, height as int);
        }
        let row = k % height;
        let col = k / height;
        out.push(matrix[row * width + col]);
    }
    proof {
        assert(out@ =~= gspec);
    }
    out
}

/// The transposition moves the sample at `(row, col)` of a `w`-by-`h`
/// matrix to position `col * h + row` of the result.
pub proof fn lemma_transpose_entry<A>(s: Seq<A>, w: int, h: int, row: int, col: int)
    requires
        0 <= row < h,
        0 <= col < w,
        s.len() == w * h,
    ensures
        transpose_spec(s, w, h)[col * h + row] == s[row * w + col],
{
    lemma_row_major_bound(col, row, h, w);
    assert(h * w == w * h) by (nonlinear_arith);
    lemma_row_major_decompose(col, row, h);
    lemma_row_major_bound(row, col, w, h);
}

/// Row `r` (of length `w`) of a row-major sequence.
pub open spec fn row_of<A>(s: Seq<A>, w: int, r: int) -> Seq<A> {
    s.subrange(r * w, r * w + w)
}

/// Row `r` of `b` is an output of the injected 1D transform `f` on row
/// `r` of `a`.
pub open spec fn row_transformed<T, F: Fn(Vec<Complex<T>>) -> Vec<Complex<T>>>(
    f: F,
    a: Seq<Complex<T>>,
    b: Seq<Complex<T>>,
    w: int,
    r: int,
) -> bool {
    exists|inp: Vec<Complex<T>>, out: Vec<Complex<T>>|
        inp@ == row_of(a, w, r) && out@ == row_of(b, w, r) && #[trigger] call_ensures(
            f,
            (inp,),
            out,
        )
}

/// A transformed row stays transformed when the surrounding sequence
/// changes without touching that row.
proof fn lemma_row_transformed_stable<T, F: Fn(Vec<Complex<T>>) -> Vec<Complex<T>>>(
    f: F,
    src: Seq<Complex<T>>,
    a: Seq<Complex<T>>,
    b: Seq<Complex<T>>,
    w: int,
    r: int,
)
    requires
        row_transformed(f, src, a, w, r),
        row_of(b, w, r) == row_of(a, w, r),
    ensures
        row_transformed(f, src, b, w, r),
{
    let (inp, out) = choose|inp: Vec<Complex<T>>, out: Vec<Complex<T>>|
        inp@ == row_of(src, w, r) && out@ == row_of(a, w, r) && #[trigger] call_ensures(
            f,
            (inp,),
            out,
        );
    assert(out@ == row_of(b, w, r));
}

/// Applies the injected 1D transform to each of the `rows` contiguous
/// rows of length `rw`, reassembling the results in order.
fn rows_apply<T: Copy, F: Fn(Vec<Complex<T>>) -> Vec<Complex<T>>>(
    src: &Vec<Complex<T>>,
    rw: usize,
    rows: usize,
    f: &F,
) -> (dst: Vec<Complex<T>>)
    requires
        src@.len() == rows * rw,
        forall|v: Vec<Complex<T>>| call_requires(*f, (v,)),
        forall|v: Vec<Complex<T>>, o: Vec<Complex<T>>|
            #[trigger] call_ensures(*f, (v,), o) ==> o@.len() == v@.len(),
    ensures
        dst@.len() == src@.len(),
        forall|i: int| 0 <= i < rows ==> row_transformed(*f, src@, dst@, rw as int, i),
{
    let mut dst: Vec<Complex<T>> = Vec::new();
    let n = src.len();
    let mut r: usize = 0;
    while r < rows
        invariant
            src@.len() == rows * rw,
            n == src@.len(),
            r <= rows,
            dst@.len() == r * rw,
            forall|v: Vec<Complex<T>>| call_requires(*f, (v,)),
            forall|v: Vec<Complex<T>>, o: Vec<Complex<T>>|
                #[trigger] call_ensures(*f, (v,), o) ==> o@.len() == v@.len(),
            forall|i: int| 0 <= i < r ==> row_transformed(*f, src@, dst@, rw as int, i),
        decreases rows - r,
    {
        proof {
            assert((r + 1) * rw == r * rw + rw) by (nonlinear_arith);
            lemma_mul_inequality(r as int + 1, rows as int, rw as int);
        }
        // gather row r into a contiguous vector
        let mut rowv: Vec<Complex<T>> = Vec::new();
        let base = r * rw;
        let mut j: usize = 0;
        while j < rw
            invariant
                src@.len() == rows * rw,
                n == src@.len(),
                base == r * rw,
                base + rw <= rows * rw,
                j <= rw,
                rowv@.len() == j,
                forall|t: int| 0 <= t < j ==> #[trigger] rowv@[t] == src@[base + t],
            decreases rw - j,
        {
            rowv.push(src[base + j]);
            j += 1;
        }
        proof {
            assert(rowv@ =~= row_of(src@, rw as int, r as int));
        }
        let ghost ginp = rowv;
        let mut outv = f(rowv);
        let ghost goutv = outv;
        proof {
            assert(goutv@.len() == rw);
        }
        let ghost dst_old = dst@;
        dst.append(&mut outv);
        proof {
            assert(dst@ == dst_old + goutv@);
            // earlier rows are untouched by appending at the end
            assert forall|i: int| 0 <= i < r implies row_transformed(
                *f,
                src@,
                dst@,
                rw as int,
                i,
            ) by {
                lemma_mul_inequality(i + 1, r as int, rw as int);
                assert((i + 1) * rw == i * rw + rw) by (nonlinear_arith);
                assert(i * rw >= 0) by (nonlinear_arith)
                    requires
                        i >= 0,
                        rw >= 0,
                ;
                assert(row_of(dst@, rw as int, i) =~= row_of(dst_old, rw as int, i));
                lemma_row_transformed_stable(*f, src@, dst_old, dst@, rw as int, i);
            }
            // and row r is exactly the transform output just appended
            assert(row_of(dst@, rw as int, r as int) =~= goutv@);
            assert(call_ensures(*f, (ginp,), goutv));
            assert(row_transformed(*f, src@, dst@, rw as int, r as int));
        }
        r += 1;
    }
    dst
}

/// The two row passes and two transpositions of a forward transform,
/// with the intermediate buffers named: `mid` is the buffer after the
/// row-wise pass, `cols` the transposed buffer after the column-wise
/// pass, and `after` the final transposition back to row-major.
pub open spec fn forward_stages<T, F: Fn(Vec<Complex<T>>) -> Vec<Complex<T>>>(
    f: F,
    before: Seq<Complex<T>>,
    mid: Seq<Complex<T>>,
    cols: Seq<Complex<T>>,
    after: Seq<Complex<T>>,
    w: int,
    h: int,
) -> bool {
    &&& mid.len() == before.len()
    &&& cols.len() == before.len()
    &&& (forall|r: int| 0 <= r < h ==> row_transformed(f, before, mid, w, r))
    &&& (forall|r: int| 0 <= r < w ==> row_transformed(f, transpose_spec(mid, w, h), cols, h, r))
    &&& after == transpose_spec(cols, h, w)
}

/// `after` is an unnormalized 2D forward transform of `before`: every
/// row was passed through the injected 1D transform, the buffer was
/// transposed, every original column was passed through it, and the
/// buffer was transposed back to row-major.
pub open spec fn forward_transformed<T, F: Fn(Vec<Complex<T>>) -> Vec<Complex<T>>>(
    f: F,
    before: Seq<Complex<T>>,
    after: Seq<Complex<T>>,
    w: int,
    h: int,
) -> bool {
    exists|mid: Seq<Complex<T>>, cols: Seq<Complex<T>>|
        #[trigger] forward_stages(f, before, mid, cols, after, w, h)
}

/// The mirrored stages of an inverse transform: `cols` is the
/// transposed buffer after the column-wise pass, `rows_out` the
/// row-major buffer after the row-wise pass, and `after` the result of
/// the element-wise normalization `g`.
pub open spec fn inverse_stages<
    T,
    F: Fn(Vec<Complex<T>>) -> Vec<Complex<T>>,
    G: Fn(Complex<T>) -> Complex<T>,
>(
    f: F,
    g: G,
    before: Seq<Complex<T>>,
    cols: Seq<Complex<T>>,
    rows_out: Seq<Complex<T>>,
    after: Seq<Complex<T>>,
    w: int,
    h: int,
) -> bool {
    &&& cols.len() == before.len()
    &&& rows_out.len() == before.len()
    &&& (forall|r: int| 0 <= r < w ==> row_transformed(f, transpose_spec(before, w, h), cols, h, r))
    &&& (forall|r: int|
        0 <= r < h ==> row_transformed(f, transpose_spec(cols, h, w), rows_out, w, r))
    &&& after.len() == before.len()
    &&& (forall|k: int|
        0 <= k < rows_out.len() ==> call_ensures(g, (rows_out[k],), #[trigger] after[k]))
}

/// `after` is a normalized 2D inverse transform of `before`: the
/// columns and then the rows were passed through the injected 1D
/// transform (in the mirrored order of the forward direction), and
/// every sample of the result was passed through the normalization
/// function.
pub open spec fn inverse_transformed<
    T,
    F: Fn(Vec<Complex<T>>) -> Vec<Complex<T>>,
    G: Fn(Complex<T>) -> Complex<T>,
>(f: F, g: G, before: Seq<Complex<T>>, after: Seq<Complex<T>>, w: int, h: int) -> bool {
    exists|cols: Seq<Complex<T>>, rows_out: Seq<Complex<T>>|
        #[trigger] inverse_stages(f, g, before, cols, rows_out, after, w, h)
}

impl<T: Copy> FreqImage<T> {
    /// Performs a 2D forward transform in place, using the injected 1D
    /// transform on every row and then on every column.
    ///
    /// `transform_row` must accept any row and return a row of the same
    /// length; the buffer stays row-major.
    pub fn fft_forward<F: Fn(Vec<Complex<T>>) -> Vec<Complex<T>>>(&mut self, transform_row: F)
        requires
            old(self).wf(),
            forall|v: Vec<Complex<T>>| call_requires(transform_row, (v,)),
            forall|v: Vec<Complex<T>>, o: Vec<Complex<T>>|
                #[trigger] call_ensures(transform_row, (v,), o) ==> o@.len() == v@.len(),
        ensures
            final(self).width == old(self).width,
            final(self).height == old(self).height,
            final(self).wf(),
            forward_transformed(
                transform_row,
                old(self).data@,
                final(self).data@,
                old(self).width as int,
                old(self).height as int,
            ),
    {
        let w = self.width as usize;
        let h = self.height as usize;
        proof {
            assert(w * h == h * w) by (nonlinear_arith);
        }
        // row-wise pass
        let stage1 = rows_apply(&self.data, w, h, &transform_row);
        // transpose so the columns become contiguous rows
        let t1 = transpose(w, h, &stage1);
        // column-wise pass
        let stage2 = rows_apply(&t1, h, w, &transform_row);
        // transpose back to row-major
        let t2 = transpose(h, w, &stage2);
        self.data = t2;
        proof {
            assert(forward_stages(
                transform_row,
                old(self).data@,
                stage1@,
                stage2@,
                self.data@,
                w as int,
                h as int,
            ));
        }
    }

    /// Performs a 2D inverse transform in place: the injected 1D
    /// transform runs over the columns and then the rows (mirroring
    /// the forward order), and `normalize` is applied to every sample
    /// to restore the original scale.
    pub fn fft_inverse<
        F: Fn(Vec<Complex<T>>) -> Vec<Complex<T>>,
        G: Fn(Complex<T>) -> Complex<T>,
    >(&mut self, transform_row: F, normalize: G)
        requires
            old(self).wf(),
            forall|v: Vec<Complex<T>>| call_requires(transform_row, (v,)),
            forall|v: Vec<Complex<T>>, o: Vec<Complex<T>>|
                #[trigger] call_ensures(transform_row, (v,), o) ==> o@.len() == v@.len(),
            forall|c: Complex<T>| call_requires(normalize, (c,)),
        ensures
            final(self).width == old(self).width,
            final(self).height == old(self).height,
            final(self).wf(),
            inverse_transformed(
                transform_row,
                normalize,
                old(self).data@,
                final(self).data@,
                old(self).width as int,
                old(self).height as int,
            ),
    {
        let w = self.width as usize;
        let h = self.height as usize;
        proof {
            assert(w * h == h * w) by (nonlinear_arith);
        }
        // transpose so the columns are contiguous
        let t1 = transpose(w, h, &self.data);
        // column-wise pass
        let stage1 = rows_apply(&t1, h, w, &transform_row);
        // transpose back to row-major
        let t2 = transpose(h, w, &stage1);
        // row-wise pass
        let stage2 = rows_apply(&t2, w, h, &transform_row);
        // normalization pass
        let mut data: Vec<Complex<T>> = Vec::new();
        let n = stage2.len();
        for k in 0..n
            invariant
                n == stage2@.len(),
                data@.len() == k,
                forall|c: Complex<T>| call_requires(normalize, (c,)),
                forall|j: int|
                    0 <= j < k ==> call_ensures(normalize, (stage2@[j],), #[trigger] data@[j]),
        {
            data.push(normalize(stage2[k]));
        }
        self.data = data;
        proof {
            assert(inverse_stages(
                transform_row,
                normalize,
                old(self).data@,
                stage1@,
                stage2@,
                self.data@,
                w as int,
                h as int,
            ));
        }
    }
}

} // verus!
