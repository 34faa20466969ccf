//! Chunk planning: partition an `N`-item domain into size-bounded chunks and
//! size a workgroup dispatch grid for each.
//!
//! A chunk's capacity is bounded twice: its encoded bytes must fit within the
//! device's maximum bindable buffer size, and its workgroup count must fit
//! within the device's per-dimension dispatch limit. The planner fills only
//! the first grid dimension, because the dispatch grid of a chunk must cover
//! at least its item count while overshooting by less than one workgroup, and
//! a multi-dimensional box cannot hit an arbitrary workgroup count exactly.
//! The kernel-side flat-index formula still supports general grids; see
//! `kernel`.

use vstd::prelude::*;

verus! {

use vstd::arithmetic::div_mod::{
    lemma_fundamental_div_mod,
    lemma_fundamental_div_mod_converse,
    lemma_div_is_ordered,
    lemma_div_nonincreasing,
    lemma_mod_multiples_basic,
};
use vstd::arithmetic::mul::{
    lemma_mul_inequality,
    lemma_mul_is_distributive_add_other_way,
    lemma_mul_basics,
    lemma_mul_nonnegative,
};
use crate::encoding::OutputEncoding;
use crate::errors::SearchError;

/// The number of workgroups launched along each axis of one compute pass.
#[derive(Clone, Copy, Debug, PartialEq, Eq, Structural)]
pub struct DispatchDims {
    pub x: u32,
    pub y: u32,
    pub z: u32,
}

/// One contiguous sub-range of the item domain, sized to fit device buffer
/// limits for a single dispatch-and-copy cycle.
#[derive(Clone, Copy, Debug, PartialEq, Eq, Structural)]
pub struct ChunkDescriptor {
    /// Position of this chunk in the plan; chunks execute in ascending order.
    pub chunk_index: u64,
    /// First item index covered by this chunk.
    pub item_offset: u64,
    /// Number of items covered by this chunk.
    pub item_count: u64,
    /// Workgroup counts of the chunk's compute pass.
    pub dispatch: DispatchDims,
}

/// The smaller of two mathematical integers.
pub open spec fn spec_min(a: int, b: int) -> int {
    if a < b {
        a
    } else {
        b
    }
}

/// How many chunks a domain of `total` items needs at `cap` items per chunk.
pub open spec fn spec_chunk_count(total: int, cap: int) -> int
    recommends
        total >= 0,
        cap >= 1,
{
    if total == 0 {
        0
    } else {
        (total - 1) / cap + 1
    }
}

/// How many items chunk `c` holds: every chunk is full except possibly the
/// last.
pub open spec fn spec_chunk_items(total: int, cap: int, c: int) -> int {
    if total - c * cap < cap {
        total - c * cap
    } else {
        cap
    }
}

/// How many workgroups of `tpw` threads cover `count` items: the exact
/// ceiling, never rounded up to more than one spare workgroup.
pub open spec fn spec_workgroups(count: int, tpw: int) -> int
    recommends
        count >= 1,
        tpw >= 1,
{
    (count - 1) / tpw + 1
}

/// The descriptor of chunk `c` in the plan for `total` items at capacity
/// `cap` with `tpw` threads per workgroup.
pub open spec fn spec_chunk(total: int, cap: int, tpw: int, c: int) -> ChunkDescriptor {
    ChunkDescriptor {
        chunk_index: c as u64,
        item_offset: (c * cap) as u64,
        item_count: spec_chunk_items(total, cap, c) as u64,
        dispatch: DispatchDims {
            x: spec_workgroups(spec_chunk_items(total, cap, c), tpw) as u32,
            y: 1,
            z: 1,
        },
    }
}

/// The whole plan: the ordered sequence of chunk descriptors.
pub open spec fn spec_plan(total: int, cap: int, tpw: int) -> Seq<ChunkDescriptor>
    recommends
        total >= 0,
        cap >= 1,
        tpw >= 1,
{
    Seq::new(spec_chunk_count(total, cap) as nat, |c: int| spec_chunk(total, cap, tpw, c))
}

/// A plan configuration the planner accepts: a positive per-item stride that
/// fits the bindable buffer at least once, and positive dispatch bounds.
pub open spec fn spec_valid_plan_config(stride: int, max_bind: int, tpw: int, max_wg: int) -> bool {
    &&& 1 <= stride <= max_bind
    &&& tpw >= 1
    &&& max_wg >= 1
}

/// Items per chunk for a stride-based encoding: bounded by the bindable
/// bytes and by what one grid dimension can dispatch.
pub open spec fn spec_capacity(stride: int, max_bind: int, tpw: int, max_wg: int) -> int {
    spec_min(max_bind / stride, tpw * max_wg)
}

/// Basic facts about chunk `c` of a plan: its range lies inside the domain,
/// every chunk but the last is full, and the last ends exactly at `total`.
pub proof fn lemma_chunk_facts(total: int, cap: int, c: int)
    requires
        total >= 0,
        cap >= 1,
        0 <= c < spec_chunk_count(total, cap),
    ensures
        0 <= c * cap < total,
        1 <= spec_chunk_items(total, cap, c) <= cap,
        c * cap + spec_chunk_items(total, cap, c) <= total,
        c < spec_chunk_count(total, cap) - 1 ==> spec_chunk_items(total, cap, c) == cap,
        c == spec_chunk_count(total, cap) - 1 ==> c * cap + spec_chunk_items(total, cap, c)
            == total,
{
    let q = (total - 1) / cap;
    let r = (total - 1) % cap;
    lemma_fundamental_div_mod(total - 1, cap);
    lemma_mul_nonnegative(c, cap);
    lemma_mul_inequality(c, q, cap);
    vstd::arithmetic::mul::lemma_mul_is_commutative(q, cap);
    assert(c * cap <= q * cap);
    assert(q * cap == total - 1 - r);
    if c < q {
        lemma_mul_inequality(c, q - 1, cap);
        lemma_mul_is_distributive_add_other_way(cap, q - 1, 1);
        lemma_mul_basics(cap);
        assert((q - 1) * cap + 1 * cap == q * cap);
        assert(c * cap <= q * cap - cap);
        assert(total - c * cap >= cap + r + 1);
    } else {
        assert(c == q);
        assert(total - c * cap == r + 1);
    }
}

/// The plan never has more chunks than items.
pub proof fn lemma_chunk_count_le_total(total: int, cap: int)
    requires
        total >= 0,
        cap >= 1,
    ensures
        0 <= spec_chunk_count(total, cap) <= total,
{
    if total > 0 {
        lemma_div_nonincreasing(total - 1, cap);
        vstd::arithmetic::div_mod::lemma_div_pos_is_pos(total - 1, cap);
    }
}

/// The capped workgroup count: a chunk no larger than `tpw * max_wg` items
/// needs at most `max_wg` workgroups.
proof fn lemma_workgroups_bounded(count: int, tpw: int, max_wg: int)
    requires
        tpw >= 1,
        max_wg >= 1,
        1 <= count <= tpw * max_wg,
    ensures
        1 <= spec_workgroups(count, tpw) <= max_wg,
{
    assert((max_wg - 1) * tpw + (tpw - 1) == tpw * max_wg - 1) by (nonlinear_arith);
    lemma_div_is_ordered(count - 1, tpw * max_wg - 1, tpw);
    lemma_fundamental_div_mod_converse(tpw * max_wg - 1, tpw, max_wg - 1, tpw - 1);
    vstd::arithmetic::div_mod::lemma_div_pos_is_pos(count - 1, tpw);
}

/// Plan a domain at a given chunk capacity. The capacity must already
/// respect the dispatch bound, so that every chunk's grid fits in one
/// dimension.
pub(crate) fn plan_with_capacity(
    total_items: u64,
    cap: u64,
    threads_per_workgroup: u32,
    max_workgroups_per_dim: u32,
) -> (chunks: Vec<ChunkDescriptor>)
    requires
        1 <= cap,
        cap <= threads_per_workgroup as int * max_workgroups_per_dim as int,
        threads_per_workgroup >= 1,
        max_workgroups_per_dim >= 1,
    ensures
        chunks@ == spec_plan(total_items as int, cap as int, threads_per_workgroup as int),
{
    let tpw = threads_per_workgroup as u64;
    let ghost total_i = total_items as int;
    let ghost cap_i = cap as int;
    let ghost tpw_i = threads_per_workgroup as int;
    let ghost n_chunks = spec_chunk_count(total_i, cap_i);

    let mut chunks: Vec<ChunkDescriptor> = Vec::new();
    let mut c: u64 = 0;
    let mut offset: u64 = 0;

    proof {
        lemma_chunk_count_le_total(total_i, cap_i);
    }

    while offset < total_items
        invariant
            1 <= cap_i,
            cap as int == cap_i,
            cap_i <= tpw_i * max_workgroups_per_dim as int,
            tpw_i >= 1,
            tpw == threads_per_workgroup,
            tpw as int == tpw_i,
            max_workgroups_per_dim >= 1,
            total_i == total_items as int,
            0 <= n_chunks <= total_i,
            n_chunks == spec_chunk_count(total_i, cap_i),
            0 <= c <= n_chunks,
            c < n_chunks ==> offset == c * cap_i,
            c == n_chunks ==> offset == total_i,
            chunks@.len() == c as int,
            forall|j: int|
                0 <= j < c as int ==> chunks@[j] == spec_chunk(total_i, cap_i, tpw_i, j),
        decreases total_items as int - offset as int,
    {
        proof {
            // The loop condition rules out a finished plan, so this is a
            // real chunk index.
            if c == n_chunks {
                assert(offset == total_i);
                assert(false);
            }
            lemma_chunk_facts(total_i, cap_i, c as int);
        }
        let remaining = total_items - offset;
        let count = if remaining < cap { remaining } else { cap };
        assert(count as int == spec_chunk_items(total_i, cap_i, c as int));
        let wgs64 = (count - 1) / tpw + 1;
        proof {
            lemma_workgroups_bounded(count as int, tpw_i, max_workgroups_per_dim as int);
        }
        let wgs = wgs64 as u32;
        chunks.push(
            ChunkDescriptor {
                chunk_index: c,
                item_offset: offset,
                item_count: count,
                dispatch: DispatchDims { x: wgs, y: 1, z: 1 },
            },
        );
        proof {
            assert(chunks@[c as int] == spec_chunk(total_i, cap_i, tpw_i, c as int));
        }
        offset = offset + count;
        c = c + 1;
        proof {
            if (c as int) < n_chunks {
                // Every chunk before the last is full, so the next offset is
                // again a multiple of the capacity.
                lemma_chunk_facts(total_i, cap_i, c as int - 1);
                lemma_mul_is_distributive_add_other_way(cap_i, c as int - 1, 1);
                lemma_mul_basics(cap_i);
                assert(offset == c as int * cap_i);
            } else {
                lemma_chunk_facts(total_i, cap_i, c as int - 1);
            }
        }
    }
    proof {
        if (c as int) < n_chunks {
            lemma_chunk_facts(total_i, cap_i, c as int);
        }
        assert(chunks@ =~= spec_plan(total_i, cap_i, tpw_i));
    }
    chunks
}

/// Plan a domain under a per-item byte stride and the device limits.
///
/// `items_per_chunk` is the bindable bytes divided by the stride, further
/// capped by what one dispatch dimension can cover; chunks then tile the
/// domain in order, all full except possibly the last. A stride of zero, a
/// stride exceeding the bindable size, or a zero dispatch bound can never
/// fit a single item and is rejected.
pub fn plan(
    total_items: u64,
    stride_bytes: u64,
    max_bind_bytes: u64,
    threads_per_workgroup: u32,
    max_workgroups_per_dim: u32,
) -> (r: Result<Vec<ChunkDescriptor>, SearchError>)
    ensures
        r is Ok <==> spec_valid_plan_config(
            stride_bytes as int,
            max_bind_bytes as int,
            threads_per_workgroup as int,
            max_workgroups_per_dim as int,
        ),
        r matches Ok(chunks) ==> chunks@ == spec_plan(
            total_items as int,
            spec_capacity(
                stride_bytes as int,
                max_bind_bytes as int,
                threads_per_workgroup as int,
                max_workgroups_per_dim as int,
            ),
            threads_per_workgroup as int,
        ),
        r matches Err(e) ==> e == SearchError::ConfigurationError,
{
    if stride_bytes == 0 || stride_bytes > max_bind_bytes || threads_per_workgroup == 0
        || max_workgroups_per_dim == 0 {
        return Err(SearchError::ConfigurationError);
    }
    proof {
        assert(threads_per_workgroup as int * max_workgroups_per_dim as int <= 0xffff_ffffu64
            * 0xffff_ffffu64 && threads_per_workgroup as int * max_workgroups_per_dim as int
            >= 1) by (nonlinear_arith)
            requires
                1 <= threads_per_workgroup <= 0xffff_ffffu64,
                1 <= max_workgroups_per_dim <= 0xffff_ffffu64,
        ;
    }
    let grid_items = threads_per_workgroup as u64 * max_workgroups_per_dim as u64;
    let by_bytes = max_bind_bytes / stride_bytes;
    let cap = if by_bytes < grid_items {
        by_bytes
    } else {
        grid_items
    };
    proof {
        vstd::arithmetic::div_mod::lemma_div_pos_is_pos(max_bind_bytes as int, stride_bytes as int);
        assert(max_bind_bytes as int / stride_bytes as int >= 1) by {
            lemma_div_is_ordered(
                stride_bytes as int,
                max_bind_bytes as int,
                stride_bytes as int,
            );
            vstd::arithmetic::div_mod::lemma_div_by_self(stride_bytes as int);
        };
    }
    Ok(plan_with_capacity(total_items, cap, threads_per_workgroup, max_workgroups_per_dim))
}

/// A configuration an encoding-aware plan accepts: the encoding is
/// well-formed, the dispatch bounds are positive, and at least one item (one
/// whole word, for the bit-packed encoding) fits a chunk.
pub open spec fn spec_encoding_valid_config(
    enc: OutputEncoding,
    max_bind: int,
    tpw: int,
    max_wg: int,
) -> bool {
    &&& enc.wf()
    &&& tpw >= 1
    &&& max_wg >= 1
    &&& match enc {
        OutputEncoding::BitPacked => max_bind >= 4 && tpw * max_wg >= 32,
        OutputEncoding::BytePerItem => max_bind >= 1,
        OutputEncoding::WidthPerItem(w) => w <= max_bind,
    }
}

/// Items per chunk under an encoding. For the bit-packed encoding both
/// bounds are rounded down to whole 32-item words, so that chunks start and
/// end on word (hence byte) boundaries of the staging buffer.
pub open spec fn spec_encoding_capacity(
    enc: OutputEncoding,
    max_bind: int,
    tpw: int,
    max_wg: int,
) -> int {
    match enc {
        OutputEncoding::BitPacked => spec_min((max_bind / 4) * 32, ((tpw * max_wg) / 32) * 32),
        OutputEncoding::BytePerItem => spec_min(max_bind, tpw * max_wg),
        OutputEncoding::WidthPerItem(w) => spec_min(max_bind / (w as int), tpw * max_wg),
    }
}

/// A valid configuration always admits a positive chunk capacity, within the
/// dispatch bound, and for the bit-packed encoding a whole multiple of 32.
pub proof fn lemma_encoding_capacity_bounds(
    enc: OutputEncoding,
    max_bind: int,
    tpw: int,
    max_wg: int,
)
    requires
        spec_encoding_valid_config(enc, max_bind, tpw, max_wg),
    ensures
        1 <= spec_encoding_capacity(enc, max_bind, tpw, max_wg) <= tpw * max_wg,
        enc is BitPacked ==> spec_encoding_capacity(enc, max_bind, tpw, max_wg) % 32 == 0,
{
    let grid = tpw * max_wg;
    assert(grid >= 1) by (nonlinear_arith)
        requires
            tpw >= 1,
            max_wg >= 1,
            grid == tpw * max_wg,
    ;
    match enc {
        OutputEncoding::BitPacked => {
            lemma_fundamental_div_mod(max_bind, 4);
            lemma_fundamental_div_mod(grid, 32);
            assert(max_bind / 4 >= 1 && grid / 32 >= 1);
            assert((max_bind / 4) * 32 >= 32) by (nonlinear_arith)
                requires
                    max_bind / 4 >= 1,
            ;
            assert((grid / 32) * 32 >= 32 && (grid / 32) * 32 <= grid) by (nonlinear_arith)
                requires
                    grid / 32 >= 1,
                    grid == 32 * (grid / 32) + grid % 32,
                    0 <= grid % 32 < 32,
            ;
            lemma_mod_multiples_basic(max_bind / 4 * 8, 4);
            assert((max_bind / 4) * 32 % 32 == 0) by (nonlinear_arith);
            assert(((grid / 32) * 32) % 32 == 0) by (nonlinear_arith);
        },
        OutputEncoding::BytePerItem => {},
        OutputEncoding::WidthPerItem(w) => {
            vstd::arithmetic::div_mod::lemma_div_pos_is_pos(max_bind, w as int);
            lemma_div_is_ordered(w as int, max_bind, w as int);
            vstd::arithmetic::div_mod::lemma_div_by_self(w as int);
        },
    }
}

/// No chunk's byte footprint exceeds the bindable buffer size: the capacity
/// is chosen so that even a full chunk's encoded bytes fit.
pub proof fn lemma_encoding_capacity_fits(
    enc: OutputEncoding,
    max_bind: int,
    tpw: int,
    max_wg: int,
    count: int,
)
    requires
        spec_encoding_valid_config(enc, max_bind, tpw, max_wg),
        0 <= count <= spec_encoding_capacity(enc, max_bind, tpw, max_wg),
    ensures
        enc.spec_buffer_bytes(count) <= max_bind,
{
    match enc {
        OutputEncoding::BitPacked => {
            let q = max_bind / 4;
            assert(count <= q * 32);
            assert((count + 31) / 32 <= q) by {
                assert(count + 31 <= q * 32 + 31);
                lemma_div_is_ordered(count + 31, q * 32 + 31, 32);
                lemma_fundamental_div_mod_converse(q * 32 + 31, 32, q, 31);
            };
            lemma_mul_inequality((count + 31) / 32, q, 4);
            lemma_fundamental_div_mod(max_bind, 4);
            assert(q * 4 <= max_bind) by (nonlinear_arith)
                requires
                    max_bind == 4 * q + max_bind % 4,
                    max_bind % 4 >= 0,
            ;
            assert((count + 31) / 32 >= 0) by {
                vstd::arithmetic::div_mod::lemma_div_pos_is_pos(count + 31, 32);
            };
        },
        OutputEncoding::BytePerItem => {},
        OutputEncoding::WidthPerItem(w) => {
            let wi = w as int;
            lemma_mul_inequality(count, max_bind / wi, wi);
            lemma_fundamental_div_mod(max_bind, wi);
            assert((max_bind / wi) * wi <= max_bind) by (nonlinear_arith)
                requires
                    max_bind == wi * (max_bind / wi) + max_bind % wi,
                    max_bind % wi >= 0,
            ;
        },
    }
}

/// Plan a domain under an output encoding and the device limits.
///
/// The per-item stride is taken from the encoding; the bit-packed encoding
/// is planned in whole 32-item words so that every chunk's output starts and
/// ends on a staging-buffer byte boundary.
pub fn plan_for_encoding(
    total_items: u64,
    enc: OutputEncoding,
    max_bind_bytes: u64,
    threads_per_workgroup: u32,
    max_workgroups_per_dim: u32,
) -> (r: Result<Vec<ChunkDescriptor>, SearchError>)
    ensures
        r is Ok <==> spec_encoding_valid_config(
            enc,
            max_bind_bytes as int,
            threads_per_workgroup as int,
            max_workgroups_per_dim as int,
        ),
        r matches Ok(chunks) ==> chunks@ == spec_plan(
            total_items as int,
            spec_encoding_capacity(
                enc,
                max_bind_bytes as int,
                threads_per_workgroup as int,
                max_workgroups_per_dim as int,
            ),
            threads_per_workgroup as int,
        ),
        r matches Err(e) ==> e == SearchError::ConfigurationError,
{
    let ghost mb = max_bind_bytes as int;
    let ghost tpw_i = threads_per_workgroup as int;
    let ghost mwg_i = max_workgroups_per_dim as int;
    match enc {
        OutputEncoding::BytePerItem => {
            let r = plan(
                total_items,
                1,
                max_bind_bytes,
                threads_per_workgroup,
                max_workgroups_per_dim,
            );
            proof {
                vstd::arithmetic::div_mod::lemma_div_basics(mb);
            }
            r
        },
        OutputEncoding::WidthPerItem(w) => {
            if !(w == 1 || w == 2 || w == 4 || w == 8) {
                return Err(SearchError::ConfigurationError);
            }
            plan(total_items, w, max_bind_bytes, threads_per_workgroup, max_workgroups_per_dim)
        },
        OutputEncoding::BitPacked => {
            if threads_per_workgroup == 0 || max_workgroups_per_dim == 0 {
                return Err(SearchError::ConfigurationError);
            }
            proof {
                assert(tpw_i * mwg_i <= 0xffff_ffffu64 * 0xffff_ffffu64 && tpw_i * mwg_i >= 1)
                    by (nonlinear_arith)
                    requires
                        1 <= tpw_i <= 0xffff_ffffu64,
                        1 <= mwg_i <= 0xffff_ffffu64,
                ;
            }
            let grid_items = threads_per_workgroup as u64 * max_workgroups_per_dim as u64;
            if max_bind_bytes < 4 || grid_items < 32 {
                return Err(SearchError::ConfigurationError);
            }
            let by_bytes = max_bind_bytes / 4;
            let by_grid = grid_items / 32;
            let cap_words = if by_bytes < by_grid { by_bytes } else { by_grid };
            proof {
                lemma_fundamental_div_mod(grid_items as int, 32);
                assert((grid_items as int / 32) * 32 <= grid_items) by (nonlinear_arith)
                    requires
                        grid_items as int == 32 * (grid_items as int / 32) + grid_items as int
                            % 32,
                        grid_items as int % 32 >= 0,
                ;
                lemma_mul_inequality(cap_words as int, grid_items as int / 32, 32);
                vstd::arithmetic::div_mod::lemma_div_pos_is_pos(max_bind_bytes as int, 4);
                vstd::arithmetic::div_mod::lemma_div_pos_is_pos(grid_items as int, 32);
                lemma_div_is_ordered(4, max_bind_bytes as int, 4);
                vstd::arithmetic::div_mod::lemma_div_by_self(4);
                lemma_div_is_ordered(32, grid_items as int, 32);
                vstd::arithmetic::div_mod::lemma_div_by_self(32);
                // The minimum in words times 32 is the minimum of the two
                // word-rounded item bounds.
                assert(cap_words as int * 32 == spec_min(
                    (mb / 4) * 32,
                    ((tpw_i * mwg_i) / 32) * 32,
                )) by (nonlinear_arith)
                    requires
                        cap_words as int == spec_min(mb / 4, (tpw_i * mwg_i) / 32),
                        grid_items as int == tpw_i * mwg_i,
                        mb == max_bind_bytes as int,
                ;
            }
            let cap = cap_words * 32;
            Ok(
                plan_with_capacity(
                    total_items,
                    cap,
                    threads_per_workgroup,
                    max_workgroups_per_dim,
                ),
            )
        },
    }
}

/// The total invocation count of a dispatch grid, with the grid's threads
/// per workgroup.
pub open spec fn spec_grid_invocations(d: DispatchDims, tpw: int) -> int {
    d.x * d.y * d.z * tpw
}

/// One chunk's dispatch grid covers its items with less than one workgroup
/// of overshoot, inside the per-dimension limit.
pub open spec fn spec_dispatch_covers(ch: ChunkDescriptor, tpw: int, max_wg: int) -> bool {
    &&& ch.item_count <= spec_grid_invocations(ch.dispatch, tpw)
    &&& spec_grid_invocations(ch.dispatch, tpw) < ch.item_count + tpw
    &&& 1 <= ch.dispatch.x <= max_wg
    &&& ch.dispatch.y == 1
    &&& ch.dispatch.z == 1
}

/// Chunk planning partitions `[0, total)` into contiguous, non-overlapping
/// ranges whose union is the full domain: the first chunk starts at zero,
/// each chunk starts where its predecessor ended, and the last ends exactly
/// at `total`.
pub proof fn lemma_plan_partitions(total: int, cap: int, tpw: int)
    requires
        0 <= total <= u64::MAX,
        1 <= cap <= u64::MAX,
        tpw >= 1,
    ensures
        spec_plan(total, cap, tpw).len() == spec_chunk_count(total, cap),
        total == 0 <==> spec_plan(total, cap, tpw).len() == 0,
        spec_plan(total, cap, tpw).len() >= 1 ==> spec_plan(total, cap, tpw)[0].item_offset == 0,
        forall|c: int|
            0 <= c < spec_plan(total, cap, tpw).len() ==> {
                &&& (#[trigger] spec_plan(total, cap, tpw)[c]).chunk_index == c
                &&& 1 <= spec_plan(total, cap, tpw)[c].item_count <= cap
                &&& spec_plan(total, cap, tpw)[c].item_offset
                    + spec_plan(total, cap, tpw)[c].item_count <= total
            },
        forall|c: int|
            0 <= c < spec_plan(total, cap, tpw).len() - 1 ==> (#[trigger] spec_plan(
                total,
                cap,
                tpw,
            )[c + 1]).item_offset == spec_plan(total, cap, tpw)[c].item_offset + spec_plan(
                total,
                cap,
                tpw,
            )[c].item_count,
        spec_plan(total, cap, tpw).len() >= 1 ==> spec_plan(total, cap, tpw).last().item_offset
            + spec_plan(total, cap, tpw).last().item_count == total,
{
    let chunks = spec_plan(total, cap, tpw);
    let n = spec_chunk_count(total, cap);
    if total > 0 {
        vstd::arithmetic::div_mod::lemma_div_pos_is_pos(total - 1, cap);
    }
    assert forall|c: int| 0 <= c < n implies {
        &&& (#[trigger] chunks[c]).chunk_index == c
        &&& 1 <= chunks[c].item_count <= cap
        &&& chunks[c].item_offset + chunks[c].item_count <= total
    } by {
        lemma_chunk_facts(total, cap, c);
    };
    assert forall|c: int| 0 <= c < n - 1 implies (#[trigger] chunks[c + 1]).item_offset
        == chunks[c].item_offset + chunks[c].item_count by {
        lemma_chunk_facts(total, cap, c);
        lemma_chunk_facts(total, cap, c + 1);
        lemma_mul_is_distributive_add_other_way(cap, c, 1);
        lemma_mul_basics(cap);
        assert((c + 1) * cap == c * cap + cap);
    };
    if n >= 1 {
        lemma_chunk_facts(total, cap, n - 1);
    }
}

/// Every chunk's dispatch grid covers at least its item count and overshoots
/// by less than one workgroup: the grid's workgroup total is the exact
/// ceiling of items over threads per workgroup.
pub proof fn lemma_plan_dispatch_covers(total: int, cap: int, tpw: int, max_wg: int)
    requires
        0 <= total <= u64::MAX,
        1 <= cap <= tpw * max_wg,
        tpw >= 1,
        1 <= max_wg <= u32::MAX,
    ensures
        forall|c: int|
            0 <= c < spec_plan(total, cap, tpw).len() ==> spec_dispatch_covers(
                #[trigger] spec_plan(total, cap, tpw)[c],
                tpw,
                max_wg,
            ),
{
    let chunks = spec_plan(total, cap, tpw);
    let n = spec_chunk_count(total, cap);
    assert forall|c: int| 0 <= c < n implies spec_dispatch_covers(
        #[trigger] chunks[c],
        tpw,
        max_wg,
    ) by {
        lemma_chunk_facts(total, cap, c);
        let count = spec_chunk_items(total, cap, c);
        lemma_workgroups_bounded(count, tpw, max_wg);
        let wgs = spec_workgroups(count, tpw);
        lemma_fundamental_div_mod(count - 1, tpw);
        assert(count <= wgs * tpw < count + tpw) by (nonlinear_arith)
            requires
                wgs == (count - 1) / tpw + 1,
                count - 1 == tpw * ((count - 1) / tpw) + (count - 1) % tpw,
                0 <= (count - 1) % tpw < tpw,
        ;
        assert(chunks[c].dispatch.x == wgs);
        assert(spec_grid_invocations(chunks[c].dispatch, tpw) == wgs * tpw) by (nonlinear_arith)
            requires
                chunks[c].dispatch.x == wgs,
                chunks[c].dispatch.y == 1,
                chunks[c].dispatch.z == 1,
                spec_grid_invocations(chunks[c].dispatch, tpw) == chunks[c].dispatch.x
                    * chunks[c].dispatch.y * chunks[c].dispatch.z * tpw,
        ;
    };
}

/// Boundary shapes of the plan: an empty domain plans no chunks; a domain of
/// exactly one chunk's capacity plans a single full chunk; one more item
/// plans exactly two chunks, the second holding exactly one item.
pub proof fn lemma_plan_boundaries(cap: int, tpw: int)
    requires
        1 <= cap <= u64::MAX - 1,
        tpw >= 1,
    ensures
        spec_chunk_count(0, cap) == 0,
        spec_chunk_count(cap, cap) == 1,
        spec_plan(cap, cap, tpw)[0].item_offset == 0,
        spec_plan(cap, cap, tpw)[0].item_count == cap,
        spec_chunk_count(cap + 1, cap) == 2,
        spec_plan(cap + 1, cap, tpw)[0].item_count == cap,
        spec_plan(cap + 1, cap, tpw)[1].item_offset == cap,
        spec_plan(cap + 1, cap, tpw)[1].item_count == 1,
{
    lemma_div_is_ordered(0, cap - 1, cap);
    vstd::arithmetic::div_mod::lemma_basic_div(cap - 1, cap);
    vstd::arithmetic::div_mod::lemma_div_by_self(cap);
    lemma_mul_basics(cap);
    assert(spec_chunk_items(cap, cap, 0) == cap);
    assert(spec_plan(cap + 1, cap, tpw)[1].item_offset == cap);
    assert(spec_chunk_items(cap + 1, cap, 1) == 1);
}


/// No chunk's byte footprint exceeds the bindable buffer size: every
/// chunk's item count times the per-item stride fits within `max_bind`.
pub proof fn lemma_plan_fits_bind(total: int, stride: int, max_bind: int, tpw: int, max_wg: int)
    requires
        0 <= total <= u64::MAX,
        spec_valid_plan_config(stride, max_bind, tpw, max_wg),
    ensures
        forall|c: int|
            0 <= c < spec_plan(total, spec_capacity(stride, max_bind, tpw, max_wg), tpw).len()
                ==> (#[trigger] spec_plan(
                total,
                spec_capacity(stride, max_bind, tpw, max_wg),
                tpw,
            )[c]).item_count * stride <= max_bind,
{
    let cap = spec_capacity(stride, max_bind, tpw, max_wg);
    assert(tpw * max_wg >= 1) by (nonlinear_arith)
        requires
            tpw >= 1,
            max_wg >= 1,
    ;
    vstd::arithmetic::div_mod::lemma_div_pos_is_pos(max_bind, stride);
    lemma_div_is_ordered(stride, max_bind, stride);
    vstd::arithmetic::div_mod::lemma_div_by_self(stride);
    let chunks = spec_plan(total, cap, tpw);
    assert forall|c: int| 0 <= c < chunks.len() implies (#[trigger] chunks[c]).item_count * stride
        <= max_bind by {
        lemma_chunk_facts(total, cap, c);
        lemma_mul_inequality(spec_chunk_items(total, cap, c), max_bind / stride, stride);
        lemma_fundamental_div_mod(max_bind, stride);
        assert((max_bind / stride) * stride <= max_bind) by (nonlinear_arith)
            requires
                max_bind == stride * (max_bind / stride) + max_bind % stride,
                max_bind % stride >= 0,
        ;
    };
}

} // verus!
