use vstd::prelude::*;
use vstd::arithmetic::div_mod::{lemma_fundamental_div_mod, lemma_fundamental_div_mod_converse, lemma_mod_pos_bound};

verus! {

/// The cell at row `y`, column `x` of a `width x height` row-major matrix `m`
/// placed in the top left corner of a larger grid filled with `zero`.
pub open spec fn pad_value<T>(m: Seq<T>, width: int, height: int, zero: T, y: int, x: int) -> T {
    if x < width && y < height {
        m[y * width + x]
    } else {
        zero
    }
}

/// The row-major `padded_width x padded_height` grid holding `m` in its top
/// left corner and `zero` everywhere else.
pub open spec fn spec_pad<T>(m: Seq<T>, width: int, height: int, padded_width: int, padded_height: int, zero: T) -> Seq<T> {
    Seq::new(
        (padded_width * padded_height) as nat,
        |k: int| pad_value(m, width, height, zero, k / padded_width, k % padded_width),
    )
}

/// The `width x height` top left corner of a row-major grid whose rows are
/// `padded_width` long, as a row-major matrix of its own.
pub open spec fn spec_unpad<T>(padded: Seq<T>, padded_width: int, width: int, height: int) -> Seq<T> {
    Seq::new((width * height) as nat, |k: int| padded[(k / width) * padded_width + k % width])
}

/// Row `y`, column `x` of a grid with rows of length `w` sits before the
/// end of row `h - 1` when `y < h` and `x < w`.
pub proof fn lemma_cell_in_grid(y: int, x: int, w: int, h: int)
    requires
        0 <= y < h,
        0 <= x < w,
    ensures
        0 <= y * w + x < h * w,
        y * w + x < (y + 1) * w,
        (y + 1) * w <= h * w,
{
    assert(y * w + x < (y + 1) * w) by (nonlinear_arith)
        requires x < w;
    assert((y + 1) * w <= h * w) by (nonlinear_arith)
        requires y + 1 <= h, 0 <= w;
    assert(0 <= y * w) by (nonlinear_arith)
        requires 0 <= y, 0 <= w;
}

/// A flat index below `w * h` names row `k / w`, column `k % w` of the grid.
pub proof fn lemma_split_index(k: int, w: int, h: int)
    requires
        0 <= k < w * h,
        0 < w,
    ensures
        k == (k / w) * w + k % w,
        0 <= k % w < w,
        0 <= k / w < h,
{
    lemma_fundamental_div_mod(k, w);
    lemma_mod_pos_bound(k, w);
    assert(w * (k / w) == (k / w) * w) by (nonlinear_arith);
    let q = k / w;
    assert(0 <= q) by (nonlinear_arith)
        requires q * w + k % w == k, 0 <= k, k % w < w, 0 < w;
    assert(q < h) by (nonlinear_arith)
        requires q * w + k % w == k, k < w * h, 0 <= k % w, 0 < w;
}

/// Places the `width x height` row-major matrix `m` in the top left corner
/// of a `padded_width x padded_height` grid and fills the rest with `zero`,
/// so that the GPU kernels can work on whole blocks of four.
pub fn pad_matrix<T: Copy>(
    m: &[T],
    width: usize,
    height: usize,
    padded_width: usize,
    padded_height: usize,
    zero: T,
) -> (r: Vec<T>)
    requires
        m.len() == width * height,
        padded_width * padded_height <= usize::MAX,
    ensures
        r.len() == padded_width * padded_height,
        forall|y: int, x: int|
            0 <= y < padded_height && 0 <= x < padded_width ==> #[trigger] r[y * padded_width + x]
                == pad_value(m@, width as int, height as int, zero, y, x),
        r@ == spec_pad(m@, width as int, height as int, padded_width as int, padded_height as int, zero),
        forall|y: int, x: int|
            0 <= y < padded_height && 0 <= x < padded_width ==> (x < width && y < height ==> #[trigger] r[y
                * padded_width + x] == m[y * width + x]) && (!(x < width && y < height) ==> r[y * padded_width
                + x] == zero),
{
    let ghost w = width as int;
    let ghost h = height as int;
    let ghost pw = padded_width as int;
    let ghost ph = padded_height as int;
    let mut r: Vec<T> = Vec::new();
    let mut y: usize = 0;
    while y < padded_height
        invariant
            y <= padded_height,
            w == width,
            h == height,
            pw == padded_width,
            ph == padded_height,
            m.len() == width * height,
            padded_width * padded_height <= usize::MAX,
            r.len() == y * padded_width,
            forall|yy: int, xx: int|
                0 <= yy < y && 0 <= xx < pw ==> #[trigger] r[yy * pw + xx] == pad_value(m@, w, h, zero, yy, xx),
        decreases padded_height - y,
    {
        let mut x: usize = 0;
        proof {
            assert((y + 1) * pw <= pw * ph) by (nonlinear_arith)
                requires y + 1 <= ph, 0 <= pw;
        }
        while x < padded_width
            invariant
                y < padded_height,
                x <= padded_width,
                w == width,
                h == height,
                pw == padded_width,
                ph == padded_height,
                m.len() == width * height,
                padded_width * padded_height <= usize::MAX,
                r.len() == y * padded_width + x,
                (y + 1) * pw <= pw * ph,
                forall|yy: int, xx: int|
                    0 <= yy < y && 0 <= xx < pw ==> #[trigger] r[yy * pw + xx] == pad_value(m@, w, h, zero, yy, xx),
                forall|xx: int| 0 <= xx < x ==> #[trigger] r[y * pw + xx] == pad_value(m@, w, h, zero, y as int, xx),
            decreases padded_width - x,
        {
            proof {
                lemma_cell_in_grid(y as int, x as int, pw, ph);
            }
            let ghost before = r@;
            if x < width && y < height {
                proof {
                    lemma_cell_in_grid(y as int, x as int, w, h);
                    assert(h * w == w * h) by (nonlinear_arith);
                }
                r.push(m[y * width + x]);
            } else {
                r.push(zero);
            }
            proof {
                assert forall|yy: int, xx: int| 0 <= yy < y && 0 <= xx < pw implies #[trigger] r[yy * pw + xx]
                    == pad_value(m@, w, h, zero, yy, xx) by {
                    lemma_cell_in_grid(yy, xx, pw, y as int);
                    assert(r[yy * pw + xx] == before[yy * pw + xx]);
                }
                assert forall|xx: int| 0 <= xx < x + 1 implies #[trigger] r[y * pw + xx] == pad_value(
                    m@, w, h, zero, y as int, xx) by {
                    if xx < x {
                        assert(r[y * pw + xx] == before[y * pw + xx]);
                    }
                }
            }
            x = x + 1;
        }
        proof {
            assert((y + 1) * pw == y * pw + pw) by (nonlinear_arith);
        }
        y = y + 1;
    }
    proof {
        assert(y == padded_height);
        if pw > 0 {
            assert forall|k: int| 0 <= k < r.len() implies r[k] == pad_value(m@, w, h, zero, k / pw, k % pw) by {
                assert(pw * ph == ph * pw) by (nonlinear_arith);
                lemma_split_index(k, pw, ph);
                let yy = k / pw;
                let xx = k % pw;
                assert(r[yy * pw + xx] == pad_value(m@, w, h, zero, yy, xx));
            }
        } else {
            assert(r.len() == 0) by (nonlinear_arith)
                requires r.len() == y * pw, pw == 0;
        }
        assert(r@ =~= spec_pad(m@, w, h, pw, ph, zero));
    }
    r
}

/// Reads the `width x height` top left corner back out of a row-major grid
/// whose rows are `padded_width` long.
pub fn unpad_matrix<T: Copy>(padded: &[T], padded_width: usize, width: usize, height: usize) -> (r: Vec<T>)
    requires
        width <= padded_width,
        height == 0 || (height - 1) * padded_width + width <= padded.len(),
    ensures
        r.len() == width * height,
        forall|y: int, x: int|
            0 <= y < height && 0 <= x < width ==> #[trigger] r[y * width + x] == padded[y * padded_width + x],
        r@ == spec_unpad(padded@, padded_width as int, width as int, height as int),
{
    let ghost w = width as int;
    let ghost h = height as int;
    let ghost pw = padded_width as int;
    let mut r: Vec<T> = Vec::new();
    let mut y: usize = 0;
    while y < height
        invariant
            y <= height,
            w == width,
            h == height,
            pw == padded_width,
            width <= padded_width,
            height == 0 || (height - 1) * padded_width + width <= padded.len(),
            r.len() == y * width,
            forall|yy: int, xx: int|
                0 <= yy < y && 0 <= xx < w ==> #[trigger] r[yy * w + xx] == padded[yy * pw + xx],
        decreases height - y,
    {
        let mut x: usize = 0;
        proof {
            assert(y * pw <= (h - 1) * pw) by (nonlinear_arith)
                requires y <= h - 1, 0 <= pw;
            assert(y * w <= y * pw) by (nonlinear_arith)
                requires w <= pw, 0 <= y;
        }
        while x < width
            invariant
                y < height,
                x <= width,
                w == width,
                h == height,
                pw == padded_width,
                width <= padded_width,
                y * pw + width <= padded.len(),
                y * w <= y * pw,
                r.len() == y * width + x,
                forall|yy: int, xx: int|
                    0 <= yy < y && 0 <= xx < w ==> #[trigger] r[yy * w + xx] == padded[yy * pw + xx],
                forall|xx: int| 0 <= xx < x ==> #[trigger] r[y * w + xx] == padded[y * pw + xx],
            decreases width - x,
        {
            let ghost before = r@;
            proof {
                assert(y * pw + x <= y * pw + width);
            }
            r.push(padded[y * padded_width + x]);
            proof {
                assert forall|yy: int, xx: int| 0 <= yy < y && 0 <= xx < w implies #[trigger] r[yy * w + xx]
                    == padded[yy * pw + xx] by {
                    lemma_cell_in_grid(yy, xx, w, y as int);
                    assert(r[yy * w + xx] == before[yy * w + xx]);
                }
                assert forall|xx: int| 0 <= xx < x + 1 implies #[trigger] r[y * w + xx] == padded[y * pw + xx] by {
                    if xx < x {
                        assert(r[y * w + xx] == before[y * w + xx]);
                    }
                }
            }
            x = x + 1;
        }
        proof {
            assert((y + 1) * w == y * w + w) by (nonlinear_arith);
        }
        y = y + 1;
    }
    proof {
        if w > 0 {
            assert forall|k: int| 0 <= k < r.len() implies r[k] == padded[(k / w) * pw + k % w] by {
                assert(w * h == h * w) by (nonlinear_arith);
                lemma_split_index(k, w, h);
                let yy = k / w;
                let xx = k % w;
                assert(r[yy * w + xx] == padded[yy * pw + xx]);
            }
        } else {
            assert(r.len() == 0) by (nonlinear_arith)
                requires r.len() == y * w, w == 0;
        }
        assert(w * h == h * w) by (nonlinear_arith);
        assert(r@ =~= spec_unpad(padded@, pw, w, h));
    }
    r
}

/// Reading the corner back out of a padded grid gives the matrix that was
/// padded: unpadding undoes padding.
pub proof fn lemma_unpad_pad<T>(m: Seq<T>, width: int, height: int, padded_width: int, padded_height: int, zero: T)
    requires
        0 <= width <= padded_width,
        0 <= height <= padded_height,
        m.len() == width * height,
    ensures
        spec_unpad(spec_pad(m, width, height, padded_width, padded_height, zero), padded_width, width, height) == m,
{
    let p = spec_pad(m, width, height, padded_width, padded_height, zero);
    let u = spec_unpad(p, padded_width, width, height);
    assert(width * height >= 0) by (nonlinear_arith)
        requires width >= 0, height >= 0;
    assert forall|k: int| 0 <= k < u.len() implies u[k] == m[k] by {
        assert(width > 0) by (nonlinear_arith)
            requires 0 <= k < width * height, width >= 0;
        lemma_split_index(k, width, height);
        let y = k / width;
        let x = k % width;
        lemma_cell_in_grid(y, x, padded_width, padded_height);
        assert(padded_width * padded_height == padded_height * padded_width) by (nonlinear_arith);
        lemma_fundamental_div_mod_converse(y * padded_width + x, padded_width, y, x);
    }
    assert(u =~= m);
}

} // verus!
