//! Small helpers shared by the emulator.

use std::ops::Range;
use vstd::prelude::*;

verus! {

/// The little-endian value of four bytes, as an unsigned number.
pub open spec fn le_word(b0: u8, b1: u8, b2: u8, b3: u8) -> int {
    b0 + 256 * b1 + 65536 * b2 + 16777216 * b3
}

/// The signed 32-bit integer whose little-endian bytes are `b0..b3`.
pub open spec fn le_i32(b0: u8, b1: u8, b2: u8, b3: u8) -> i32 {
    le_word(b0, b1, b2, b3) as i32
}

/// The `i`-th little-endian `i32` of a byte sequence.
pub open spec fn le_i32_at(bytes: Seq<u8>, i: int) -> i32 {
    le_i32(bytes[4 * i], bytes[4 * i + 1], bytes[4 * i + 2], bytes[4 * i + 3])
}

/// Reads the bytes as consecutive little-endian `i32`s; a trailing group of fewer
/// than four bytes is ignored.
pub fn bytes_to_intarr(bytes: Vec<u8>) -> (out: Vec<i32>)
    ensures
        out@.len() == bytes@.len() / 4,
        forall|i: int| 0 <= i < out@.len() ==> #[trigger] out@[i] == le_i32_at(bytes@, i),
{
    let len = bytes.len();
    let n = len / 4;
    let mut out: Vec<i32> = Vec::new();
    let mut i: usize = 0;
    while i < n
        invariant
            n == bytes@.len() / 4,
            len == bytes@.len(),
            i <= n,
            out@.len() == i,
            forall|k: int| 0 <= k < i ==> #[trigger] out@[k] == le_i32_at(bytes@, k),
        decreases n - i,
    {
        proof {
            assert(4 * i + 4 <= bytes@.len()) by (nonlinear_arith)
                requires
                    i < n,
                    n == bytes@.len() / 4,
            ;
        }
        let base = 4 * i;
        let w: u32 = bytes[base] as u32 + 256 * (bytes[base + 1] as u32) + 65536 * (
        bytes[base + 2] as u32) + 16777216 * (bytes[base + 3] as u32);
        let v: i32 = #[verifier::truncate] (w as i32);
        out.push(v);
        i = i + 1;
    }
    out
}

/// The number of values in a half-open range.
pub open spec fn range_len(r: Range<u32>) -> nat {
    if r.start < r.end {
        (r.end - r.start) as nat
    } else {
        0
    }
}

/// Position of the triple with offsets `(a, b, c)` in the flattened product.
pub open spec fn flat_index(a: int, b: int, c: int, ny: int, nz: int) -> int {
    (a * ny + b) * nz + c
}

proof fn lemma_index_step(a: int, b: int, c: int, ny: int, nz: int)
    requires
        0 <= a,
        0 <= b < ny,
        0 <= c < nz,
    ensures
        0 <= (a * ny + b) * nz + c < (a * ny + b + 1) * nz,
        (a * ny + b + 1) * nz <= (a + 1) * ny * nz,
{
    assert(0 <= (a * ny + b) * nz) by (nonlinear_arith)
        requires
            0 <= a,
            0 <= b,
            0 <= ny,
            0 <= nz,
    ;
    assert((a * ny + b + 1) * nz == (a * ny + b) * nz + nz) by (nonlinear_arith);
    assert((a * ny + b + 1) * nz <= (a + 1) * ny * nz) by (nonlinear_arith)
        requires
            b + 1 <= ny,
            0 <= nz,
            0 <= a,
    ;
}

/// Every triple of the three ranges, in order: the first component varies slowest,
/// the last fastest. The triple `(x.start + a, y.start + b, z.start + c)` stands at
/// index `(a * |y| + b) * |z| + c` (see `flat_index`).
pub fn triple_zip(x: Range<u32>, y: Range<u32>, z: Range<u32>) -> (out: Vec<(u32, u32, u32)>)
    requires
        range_len(x) * range_len(y) * range_len(z) <= usize::MAX,
    ensures
        out@.len() == range_len(x) * range_len(y) * range_len(z),
        forall|a: int, b: int, c: int|
            0 <= a < range_len(x) && 0 <= b < range_len(y) && 0 <= c < range_len(z) ==> #[trigger] out@[flat_index(a, b, c, range_len(y) as int, range_len(z) as int)]
                == ((x.start + a) as u32, (y.start + b) as u32, (z.start + c) as u32),
{
    let ghost nx = range_len(x) as int;
    let ghost ny = range_len(y) as int;
    let ghost nz = range_len(z) as int;
    let mut out: Vec<(u32, u32, u32)> = Vec::new();
    if x.start >= x.end || y.start >= y.end || z.start >= z.end {
        proof {
            assert(nx * ny * nz == 0) by (nonlinear_arith)
                requires
                    nx == 0 || ny == 0 || nz == 0,
            ;
        }
        return out;
    }
    let mut a: u32 = x.start;
    proof {
        assert(0 * ny * nz == 0) by (nonlinear_arith);
    }
    while a < x.end
        invariant
            x.start <= a <= x.end,
            y.start < y.end,
            z.start < z.end,
            nx == x.end - x.start,
            ny == y.end - y.start,
            nz == z.end - z.start,
            out@.len() == (a - x.start) * ny * nz,
            nx * ny * nz <= usize::MAX,
            forall|a1: int, b1: int, c1: int|
                0 <= a1 < a - x.start && 0 <= b1 < ny && 0 <= c1 < nz ==> #[trigger] out@[flat_index(a1, b1, c1, ny, nz)]
                    == ((x.start + a1) as u32, (y.start + b1) as u32, (z.start + c1) as u32),
        decreases x.end - a,
    {
        let mut b: u32 = y.start;
        while b < y.end
            invariant
                x.start <= a < x.end,
                y.start <= b <= y.end,
                z.start < z.end,
                nx == x.end - x.start,
                ny == y.end - y.start,
                nz == z.end - z.start,
                out@.len() == ((a - x.start) * ny + (b - y.start)) * nz,
                nx * ny * nz <= usize::MAX,
                forall|a1: int, b1: int, c1: int|
                    0 <= a1 < a - x.start && 0 <= b1 < ny && 0 <= c1 < nz ==> #[trigger] out@[flat_index(a1, b1, c1, ny, nz)]
                        == ((x.start + a1) as u32, (y.start + b1) as u32, (z.start + c1) as u32),
                forall|b1: int, c1: int|
                    0 <= b1 < b - y.start && 0 <= c1 < nz ==> #[trigger] out@[flat_index(a - x.start, b1, c1, ny, nz)]
                        == (a, (y.start + b1) as u32, (z.start + c1) as u32),
            decreases y.end - b,
        {
            let mut c: u32 = z.start;
            while c < z.end
                invariant
                    x.start <= a < x.end,
                    y.start <= b < y.end,
                    z.start <= c <= z.end,
                    nx == x.end - x.start,
                    ny == y.end - y.start,
                    nz == z.end - z.start,
                    out@.len() == ((a - x.start) * ny + (b - y.start)) * nz + (c - z.start),
                    forall|a1: int, b1: int, c1: int|
                        0 <= a1 < a - x.start && 0 <= b1 < ny && 0 <= c1 < nz ==> #[trigger] out@[flat_index(a1, b1, c1, ny, nz)]
                            == ((x.start + a1) as u32, (y.start + b1) as u32, (z.start + c1) as u32),
                    forall|b1: int, c1: int|
                        0 <= b1 < b - y.start && 0 <= c1 < nz ==> #[trigger] out@[flat_index(a - x.start, b1, c1, ny, nz)]
                            == (a, (y.start + b1) as u32, (z.start + c1) as u32),
                    forall|c1: int|
                        0 <= c1 < c - z.start ==> #[trigger] out@[flat_index(a - x.start, b - y.start, c1, ny, nz)]
                            == (a, b, (z.start + c1) as u32),
                    nx * ny * nz <= usize::MAX,
                decreases z.end - c,
            {
                proof {
                    let ai = a - x.start;
                    let bi = b - y.start;
                    lemma_index_step(ai, bi, c - z.start, ny, nz);
                    assert((ai + 1) * ny * nz <= nx * ny * nz) by (nonlinear_arith)
                        requires
                            ai + 1 <= nx,
                            0 <= ny,
                            0 <= nz,
                    ;
                    assert forall|a1: int, b1: int, c1: int|
                        0 <= a1 < ai && 0 <= b1 < ny && 0 <= c1 < nz implies #[trigger] flat_index(a1, b1, c1, ny, nz) < out@.len() by {
                        lemma_index_step(a1, b1, c1, ny, nz);
                        assert((a1 + 1) * ny * nz <= ai * ny * nz) by (nonlinear_arith)
                            requires
                                a1 + 1 <= ai,
                                0 <= ny,
                                0 <= nz,
                        ;
                        assert(ai * ny * nz <= (ai * ny + bi) * nz) by (nonlinear_arith)
                            requires
                                0 <= bi,
                                0 <= nz,
                        ;
                    }
                    assert forall|b1: int, c1: int|
                        0 <= b1 < bi && 0 <= c1 < nz implies #[trigger] flat_index(ai, b1, c1, ny, nz) < out@.len() by {
                        lemma_index_step(ai, b1, c1, ny, nz);
                        assert((ai * ny + b1 + 1) * nz <= (ai * ny + bi) * nz) by (nonlinear_arith)
                            requires
                                b1 + 1 <= bi,
                                0 <= nz,
                        ;
                    }
                }
                out.push((a, b, c));
                c = c + 1;
            }
            proof {
                let ai = a - x.start;
                let bi = b - y.start;
                assert(((ai * ny + bi) * nz + nz) == (ai * ny + bi + 1) * nz) by (nonlinear_arith);
            }
            b = b + 1;
        }
        proof {
            let ai = a - x.start;
            assert((ai * ny + ny) * nz == (ai + 1) * ny * nz) by (nonlinear_arith);
        }
        a = a + 1;
    }
    out
}

/// The triple at position `i` of the product `0..nx × 0..ny × 0..nz`, read back
/// from its flat position.
pub open spec fn grid_point(i: int, ny: int, nz: int) -> (u32, u32, u32) {
    (((i / nz) / ny) as u32, ((i / nz) % ny) as u32, (i % nz) as u32)
}

/// All triples of `0..nx × 0..ny × 0..nz` in `triple_zip` order.
pub open spec fn grid_points(nx: int, ny: int, nz: int) -> Seq<(u32, u32, u32)> {
    Seq::new((nx * ny * nz) as nat, |i: int| grid_point(i, ny, nz))
}

/// A flat position inside the product comes from offsets inside the ranges.
proof fn lemma_unflatten(i: int, nx: int, ny: int, nz: int)
    requires
        0 <= i < nx * ny * nz,
        0 <= nx,
        0 <= ny,
        0 <= nz,
    ensures
        0 <= (i / nz) / ny < nx,
        0 <= (i / nz) % ny < ny,
        0 <= i % nz < nz,
        flat_index((i / nz) / ny, (i / nz) % ny, i % nz, ny, nz) == i,
{
    assert(ny > 0 && nz > 0) by (nonlinear_arith)
        requires
            0 <= i < nx * ny * nz,
            0 <= nx,
            0 <= ny,
            0 <= nz,
    ;
    let q = i / nz;
    let c = i % nz;
    assert(i == q * nz + c && 0 <= c < nz) by (nonlinear_arith)
        requires
            nz > 0,
            q == i / nz,
            c == i % nz,
    ;
    assert(0 <= q < nx * ny) by (nonlinear_arith)
        requires
            i == q * nz + c,
            0 <= c < nz,
            0 <= i < nx * ny * nz,
            nz > 0,
    ;
    let a = q / ny;
    let b = q % ny;
    assert(q == a * ny + b && 0 <= b < ny) by (nonlinear_arith)
        requires
            ny > 0,
            a == q / ny,
            b == q % ny,
    ;
    assert(0 <= a < nx) by (nonlinear_arith)
        requires
            q == a * ny + b,
            0 <= b < ny,
            0 <= q < nx * ny,
            ny > 0,
    ;
}

/// `triple_zip` over ranges starting at zero gives exactly `grid_points`.
pub proof fn lemma_zip_points(out: Seq<(u32, u32, u32)>, x: Range<u32>, y: Range<u32>, z: Range<u32>)
    requires
        x.start == 0,
        y.start == 0,
        z.start == 0,
        out.len() == range_len(x) * range_len(y) * range_len(z),
        forall|a: int, b: int, c: int|
            0 <= a < range_len(x) && 0 <= b < range_len(y) && 0 <= c < range_len(z) ==> #[trigger] out[flat_index(a, b, c, range_len(y) as int, range_len(z) as int)]
                == ((x.start + a) as u32, (y.start + b) as u32, (z.start + c) as u32),
    ensures
        out == grid_points(range_len(x) as int, range_len(y) as int, range_len(z) as int),
{
    let nx = range_len(x) as int;
    let ny = range_len(y) as int;
    let nz = range_len(z) as int;
    assert forall|i: int| 0 <= i < out.len() implies out[i] == grid_point(i, ny, nz) by {
        lemma_unflatten(i, nx, ny, nz);
        let a = (i / nz) / ny;
        let b = (i / nz) % ny;
        let c = i % nz;
        assert(out[flat_index(a, b, c, ny, nz)] == ((x.start + a) as u32, (y.start + b) as u32, (
        z.start + c) as u32));
    }
    assert(out =~= grid_points(nx, ny, nz));
}

} // verus!
