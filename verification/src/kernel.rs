//! Host-side model of the compute kernel.
//!
//! The device kernel and the chunk planner must agree on one addressing
//! scheme for seed indices to be stable: a workgroup's flat index is
//! `wg.x * dim.y * dim.z + wg.z * dim.y + wg.y`, and an invocation's flat
//! index is that times the threads per workgroup, plus the local invocation
//! index. The kernel adds the chunk's item offset to the flat index, exits
//! without writing when the index reaches the chunk's item count, and
//! otherwise writes the predicate's result under the output encoding.
//!
//! `run_chunk` executes one chunk of that scheme on the host against a
//! precomputed predicate table, writing into the staging buffer exactly the
//! bytes the device run leaves there: the canonical encoding of the
//! predicate over the chunk's item range. For the bit-packed encoding each
//! staging byte holds the OR of its eight invocations' atomic bit writes, so
//! the model produces each byte whole.

use vstd::prelude::*;

verus! {

use vstd::arithmetic::div_mod::{
    lemma_fundamental_div_mod,
    lemma_fundamental_div_mod_converse,
    lemma_add_mod_noop,
};
use vstd::arithmetic::mul::{lemma_mul_inequality, lemma_mul_nonnegative};
use crate::encoding::{OutputEncoding, spec_bit, spec_pack_byte};
use crate::planner::{ChunkDescriptor, DispatchDims, spec_min};

/// The placeholder per-seed predicate of the flag-writing kernel: the device
/// build substitutes the real predicate; this stand-in accepts every seed.
pub fn compute(_seed: u32) -> (r: bool)
    ensures
        r,
{
    true
}

/// The flat index of one workgroup within a dispatch grid: the addressing
/// scheme shared verbatim between the planner and the kernel.
pub open spec fn spec_flat_workgroup_index(wg: DispatchDims, dims: DispatchDims) -> int {
    wg.x * dims.y * dims.z + wg.z * dims.y + wg.y
}

/// The flat index of one invocation: its workgroup's flat index scaled by
/// the workgroup size, plus its local index.
pub open spec fn spec_flat_invocation_index(
    wg: DispatchDims,
    dims: DispatchDims,
    local_index: int,
    tpw: int,
) -> int {
    spec_flat_workgroup_index(wg, dims) * tpw + local_index
}

/// The flat workgroup index enumerates the grid exactly: every workgroup of
/// an `x * y * z` grid maps into `[0, x * y * z)`.
pub proof fn lemma_flat_workgroup_index_range(wg: DispatchDims, dims: DispatchDims)
    requires
        wg.x < dims.x,
        wg.y < dims.y,
        wg.z < dims.z,
    ensures
        0 <= spec_flat_workgroup_index(wg, dims) < dims.x * dims.y * dims.z,
{
    assert(0 <= wg.x * dims.y * dims.z + wg.z * dims.y + wg.y < dims.x * dims.y * dims.z)
        by (nonlinear_arith)
        requires
            0 <= wg.x < dims.x,
            0 <= wg.y < dims.y,
            0 <= wg.z < dims.z,
    ;
}

/// No two workgroups of a grid share a flat index.
pub proof fn lemma_flat_workgroup_index_injective(
    a: DispatchDims,
    b: DispatchDims,
    dims: DispatchDims,
)
    requires
        a.x < dims.x,
        a.y < dims.y,
        a.z < dims.z,
        b.x < dims.x,
        b.y < dims.y,
        b.z < dims.z,
        spec_flat_workgroup_index(a, dims) == spec_flat_workgroup_index(b, dims),
    ensures
        a.x == b.x,
        a.y == b.y,
        a.z == b.z,
{
    let dy = dims.y as int;
    let dz = dims.z as int;
    let fa = spec_flat_workgroup_index(a, dims);
    // The formula is a mixed-radix numeral with digits (x; z; y), so each
    // digit is recovered by division and remainder.
    assert(fa == (a.x * dz + a.z) * dy + a.y) by (nonlinear_arith)
        requires
            fa == a.x * dy * dz + a.z * dy + a.y,
    ;
    assert(fa == (b.x * dz + b.z) * dy + b.y) by (nonlinear_arith)
        requires
            fa == b.x * dy * dz + b.z * dy + b.y,
    ;
    assert(0 <= a.x * dz + a.z && 0 <= b.x * dz + b.z) by (nonlinear_arith)
        requires
            a.x >= 0 && a.z >= 0 && b.x >= 0 && b.z >= 0 && dz >= 1,
    ;
    lemma_fundamental_div_mod_converse(fa, dy, a.x * dz + a.z, a.y as int);
    lemma_fundamental_div_mod_converse(fa, dy, b.x * dz + b.z, b.y as int);
    assert(a.x * dz + a.z == b.x * dz + b.z);
    let q = a.x * dz + a.z;
    lemma_fundamental_div_mod_converse(q, dz, a.x as int, a.z as int);
    lemma_fundamental_div_mod_converse(q, dz, b.x as int, b.z as int);
}

/// In the grids the planner emits, which fill only the first dimension, the
/// flat workgroup index is just `wg.x`.
pub proof fn lemma_flat_workgroup_index_1d(wg: DispatchDims, dims: DispatchDims)
    requires
        dims.y == 1,
        dims.z == 1,
        wg.y == 0,
        wg.z == 0,
    ensures
        spec_flat_workgroup_index(wg, dims) == wg.x,
{
}

/// Set bit `index % 32` of word `index / 32`, as the bit-packed kernel does
/// with an atomic OR; every other word is untouched.
pub fn set_bit(array: &mut Vec<u32>, index: usize)
    requires
        index / 32 < old(array)@.len(),
    ensures
        final(array)@.len() == old(array)@.len(),
        final(array)@[index as int / 32] == (old(array)@[index as int / 32] | (1u32 << (
        (index % 32) as u32))),
        forall|j: int|
            0 <= j < old(array)@.len() && j != index as int / 32 ==> final(array)@[j] == old(
                array,
            )@[j],
{
    let word = index / 32;
    let bit = (index % 32) as u32;
    let updated = array[word] | (1u32 << bit);
    array.set(word, updated);
}

/// One result bit as the kernel sees it: 1 when the index is inside the
/// bound and its predicate holds, 0 otherwise.
fn bit_at(pred: &Vec<bool>, idx: u64, limit: u64) -> (r: u8)
    requires
        limit <= pred@.len(),
    ensures
        r == (if idx < limit && pred@[idx as int] {
            1u8
        } else {
            0u8
        }),
{
    if idx < limit {
        let n = pred.len();
        proof {
            assert(idx < n);
        }
        if pred[idx as usize] {
            1
        } else {
            0
        }
    } else {
        0
    }
}

/// Pack the eight results at `base .. base + 8` into one byte, least
/// significant bit first, treating anything at or beyond `limit` as
/// unsatisfied. The byte equals the canonical packed byte whenever `limit`
/// either covers all eight bits or is the end of the whole table.
fn pack_byte(pred: &Vec<bool>, base: u64, limit: u64) -> (r: u8)
    requires
        limit <= pred@.len(),
        base + 8 <= u64::MAX,
        base + 8 <= limit || limit == pred@.len(),
    ensures
        r == spec_pack_byte(pred@, base as int),
{
    let b0 = bit_at(pred, base, limit);
    let b1 = bit_at(pred, base + 1, limit);
    let b2 = bit_at(pred, base + 2, limit);
    let b3 = bit_at(pred, base + 3, limit);
    let b4 = bit_at(pred, base + 4, limit);
    let b5 = bit_at(pred, base + 5, limit);
    let b6 = bit_at(pred, base + 6, limit);
    let b7 = bit_at(pred, base + 7, limit);
    proof {
        assert(b0 == spec_bit(pred@, base as int));
        assert(b1 == spec_bit(pred@, base as int + 1));
        assert(b2 == spec_bit(pred@, base as int + 2));
        assert(b3 == spec_bit(pred@, base as int + 3));
        assert(b4 == spec_bit(pred@, base as int + 4));
        assert(b5 == spec_bit(pred@, base as int + 5));
        assert(b6 == spec_bit(pred@, base as int + 6));
        assert(b7 == spec_bit(pred@, base as int + 7));
    }
    b0 | (b1 << 1u8) | (b2 << 2u8) | (b3 << 3u8) | (b4 << 4u8) | (b5 << 5u8) | (b6 << 6u8) | (b7
        << 7u8)
}

/// Write one fixed-width little-endian flag: the sentinel 1 for a satisfied
/// item, 0 otherwise. Only the `w` bytes at `base` change.
fn write_flag(staging: &mut Vec<u8>, base: usize, w: usize, val: bool)
    requires
        base + w <= old(staging)@.len(),
    ensures
        final(staging)@.len() == old(staging)@.len(),
        forall|b: int|
            base <= b < base + w ==> final(staging)@[b] == (if b == base && val {
                1u8
            } else {
                0u8
            }),
        forall|b: int|
            0 <= b < old(staging)@.len() && !(base <= b < base + w) ==> final(staging)@[b] == old(
                staging,
            )@[b],
{
    let n = staging.len();
    let mut k: usize = 0;
    while k < w
        invariant
            0 <= k <= w,
            base + w <= n,
            staging@.len() == n,
            staging@.len() == old(staging)@.len(),
            forall|b: int|
                base <= b < base + k ==> staging@[b] == (if b == base && val {
                    1u8
                } else {
                    0u8
                }),
            forall|b: int|
                0 <= b < old(staging)@.len() && !(base <= b < base + k) ==> staging@[b] == old(
                    staging,
                )@[b],
        decreases w - k,
    {
        let v: u8 = if k == 0 && val {
            1
        } else {
            0
        };
        staging.set(base + k, v);
        k = k + 1;
    }
}


/// Bit-packed ranges that start and end on whole 32-item words occupy
/// exactly one byte per eight items.
proof fn lemma_aligned_bitpacked_bytes(n: int)
    requires
        n >= 0,
        n % 32 == 0,
    ensures
        OutputEncoding::BitPacked.spec_buffer_bytes(n) * 8 == n,
{
    let m = n / 32;
    lemma_fundamental_div_mod(n, 32);
    lemma_fundamental_div_mod_converse(n + 31, 32, m, 31);
}

/// Execute one chunk on the host: for every invocation of the chunk's
/// dispatch grid, bounds-check the flat invocation index against the chunk's
/// item count — invocations of the grid's overshoot exit without writing —
/// evaluate the predicate table at the chunk offset plus the index, and
/// write the encoded result at the chunk's staging offset.
///
/// Exactly the chunk's byte range of the canonical encoding is written;
/// every other staging byte is untouched, so chunks compose into the whole
/// encoded domain.
pub fn run_chunk(
    pred: &Vec<bool>,
    ch: &ChunkDescriptor,
    enc: OutputEncoding,
    threads_per_workgroup: u32,
    staging: &mut Vec<u8>,
)
    requires
        enc.wf(),
        threads_per_workgroup >= 1,
        ch.item_offset + ch.item_count <= pred@.len(),
        pred@.len() <= u32::MAX,
        old(staging)@.len() == enc.spec_buffer_bytes(pred@.len() as int),
        ch.dispatch.y == 1,
        ch.dispatch.z == 1,
        ch.item_count <= ch.dispatch.x as int * threads_per_workgroup as int,
        enc is BitPacked ==> ch.item_offset % 32 == 0 && (ch.item_count % 32 == 0
            || ch.item_offset + ch.item_count == pred@.len()),
    ensures
        final(staging)@.len() == old(staging)@.len(),
        forall|b: int|
            enc.spec_buffer_bytes(ch.item_offset as int) <= b < enc.spec_buffer_bytes(
                ch.item_offset + ch.item_count,
            ) ==> final(staging)@[b] == enc.spec_encode(pred@)[b],
        forall|b: int|
            0 <= b < old(staging)@.len() && !(enc.spec_buffer_bytes(ch.item_offset as int) <= b
                < enc.spec_buffer_bytes(ch.item_offset + ch.item_count)) ==> final(staging)@[b]
                == old(staging)@[b],
{
    let ghost n = pred@.len() as int;
    let ghost encoded = enc.spec_encode(pred@);
    let ghost lo = enc.spec_buffer_bytes(ch.item_offset as int);
    let ghost hi = enc.spec_buffer_bytes(ch.item_offset + ch.item_count);
    proof {
        enc.lemma_encode_len(pred@);
        enc.lemma_buffer_bytes_mono(ch.item_offset as int, ch.item_offset + ch.item_count);
        enc.lemma_buffer_bytes_mono(ch.item_offset + ch.item_count, n);
        assert(ch.dispatch.x as int * threads_per_workgroup as int <= 0xffff_ffffu64
            * 0xffff_ffffu64) by (nonlinear_arith)
            requires
                0 <= ch.dispatch.x <= 0xffff_ffffu64,
                0 <= threads_per_workgroup <= 0xffff_ffffu64,
        ;
    }
    proof {
        enc.lemma_buffer_bytes_bound(n);
    }
    let pn = pred.len();
    let sn = staging.len();
    match enc {
        OutputEncoding::BytePerItem => {
            let inv_total: u64 = ch.dispatch.x as u64 * threads_per_workgroup as u64;
            let mut g: u64 = 0;
            while g < inv_total
                invariant
                    enc == OutputEncoding::BytePerItem,
                    encoded == enc.spec_encode(pred@),
                    n == pred@.len() as int,
                    pn as int == n,
                    ch.item_offset + ch.item_count <= n,
                    n <= u32::MAX,
                    staging@.len() == old(staging)@.len(),
                    staging@.len() == n,
                    g <= inv_total,
                    ch.item_count <= inv_total,
                    forall|b: int|
                        ch.item_offset <= b < ch.item_offset + spec_min(
                            g as int,
                            ch.item_count as int,
                        ) ==> staging@[b] == encoded[b],
                    forall|b: int|
                        0 <= b < staging@.len() && !(ch.item_offset <= b < ch.item_offset
                            + spec_min(g as int, ch.item_count as int)) ==> staging@[b] == old(
                            staging,
                        )@[b],
                decreases inv_total as int - g as int,
            {
                if g < ch.item_count {
                    let idx = ch.item_offset + g;
                    let v: u8 = if pred[idx as usize] {
                        1
                    } else {
                        0
                    };
                    staging.set(idx as usize, v);
                }
                g = g + 1;
            }
        },
        OutputEncoding::WidthPerItem(w) => {
            let inv_total: u64 = ch.dispatch.x as u64 * threads_per_workgroup as u64;
            let mut g: u64 = 0;
            while g < inv_total
                invariant
                    enc == OutputEncoding::WidthPerItem(w),
                    enc.wf(),
                    1 <= w <= 8,
                    encoded == enc.spec_encode(pred@),
                    n == pred@.len() as int,
                    pn as int == n,
                    ch.item_offset + ch.item_count <= n,
                    n <= u32::MAX,
                    staging@.len() == old(staging)@.len(),
                    staging@.len() == n * w,
                    staging@.len() == sn as int,
                    g <= inv_total,
                    ch.item_count <= inv_total,
                    forall|b: int|
                        ch.item_offset * w <= b < (ch.item_offset + spec_min(
                            g as int,
                            ch.item_count as int,
                        )) * w ==> staging@[b] == encoded[b],
                    forall|b: int|
                        0 <= b < staging@.len() && !(ch.item_offset * w <= b < (ch.item_offset
                            + spec_min(g as int, ch.item_count as int)) * w) ==> staging@[b]
                            == old(staging)@[b],
                decreases inv_total as int - g as int,
            {
                if g < ch.item_count {
                    let idx = ch.item_offset + g;
                    proof {
                        lemma_mul_inequality(idx as int + 1, n, w as int);
                        lemma_mul_nonnegative(idx as int, w as int);
                        assert((idx as int + 1) * w == idx as int * w + w) by (nonlinear_arith);
                        lemma_mul_inequality(ch.item_offset as int, idx as int, w as int);
                        assert((ch.item_offset + spec_min(g as int, ch.item_count as int)) * w
                            == idx as int * w) by (nonlinear_arith)
                            requires
                                spec_min(g as int, ch.item_count as int) == g as int,
                                idx as int == ch.item_offset + g,
                        ;
                        assert((ch.item_offset + spec_min(g as int + 1, ch.item_count as int))
                            * w == idx as int * w + w) by (nonlinear_arith)
                            requires
                                spec_min(g as int + 1, ch.item_count as int) == g as int + 1,
                                idx as int == ch.item_offset + g,
                        ;
                        lemma_mul_inequality(idx as int, idx as int + 1, w as int);
                        assert(idx as int * w + w <= sn as int);
                    }
                    let base = idx * w;
                    let val = pred[idx as usize];
                    write_flag(staging, base as usize, w as usize, val);
                    proof {
                        assert forall|b: int|
                            idx as int * w <= b < idx as int * w + w implies staging@[b]
                            == encoded[b] by {
                            lemma_fundamental_div_mod_converse(
                                b,
                                w as int,
                                idx as int,
                                b - idx as int * w,
                            );
                        };
                    }
                } else {
                    proof {
                        assert(spec_min(g as int, ch.item_count as int) == spec_min(
                            g as int + 1,
                            ch.item_count as int,
                        ));
                    }
                }
                g = g + 1;
            }
            proof {
                assert((ch.item_offset + spec_min(inv_total as int, ch.item_count as int)) * w
                    == hi) by (nonlinear_arith)
                    requires
                        spec_min(inv_total as int, ch.item_count as int) == ch.item_count as int,
                        hi == (ch.item_offset + ch.item_count) * w,
                ;
            }
        },
        OutputEncoding::BitPacked => {
            let limit = ch.item_offset + ch.item_count;
            proof {
                lemma_aligned_bitpacked_bytes(ch.item_offset as int);
                if ch.item_count % 32 == 0 {
                    lemma_add_mod_noop(ch.item_offset as int, ch.item_count as int, 32);
                    lemma_aligned_bitpacked_bytes(ch.item_offset + ch.item_count);
                }
                enc.lemma_buffer_bytes_bound(ch.item_offset as int);
                enc.lemma_buffer_bytes_bound(limit as int);
                enc.lemma_buffer_bytes_bound(n);
            }
            let lo_b = enc.buffer_bytes(ch.item_offset);
            let hi_b = enc.buffer_bytes(limit);
            let mut b = lo_b;
            while b < hi_b
                invariant
                    enc == OutputEncoding::BitPacked,
                    encoded == enc.spec_encode(pred@),
                    n == pred@.len() as int,
                    pn as int == n,
                    limit as int == ch.item_offset + ch.item_count,
                    limit <= n,
                    n <= u32::MAX,
                    staging@.len() == old(staging)@.len(),
                    staging@.len() == sn as int,
                    sn as int == enc.spec_buffer_bytes(n),
                    encoded.len() == staging@.len(),
                    lo_b as int == enc.spec_buffer_bytes(ch.item_offset as int),
                    hi_b as int == enc.spec_buffer_bytes(limit as int),
                    lo_b <= b <= hi_b,
                    hi_b <= sn,
                    hi_b as int <= 8 * 0x1_0000_0000,
                    ch.item_count % 32 == 0 ==> hi_b as int * 8 == limit,
                    ch.item_count % 32 != 0 ==> limit as int == n,
                    forall|x: int| lo_b as int <= x < b as int ==> staging@[x] == encoded[x],
                    forall|x: int|
                        0 <= x < staging@.len() && !(lo_b as int <= x < b as int) ==> staging@[x]
                            == old(staging)@[x],
                decreases hi_b as int - b as int,
            {
                proof {
                    if ch.item_count % 32 == 0 {
                        assert(b as int * 8 + 8 <= hi_b as int * 8) by (nonlinear_arith)
                            requires
                                b as int + 1 <= hi_b as int,
                        ;
                    }
                }
                let v = pack_byte(pred, b * 8, limit);
                staging.set(b as usize, v);
                b = b + 1;
            }
        },
    }
}

} // verus!
