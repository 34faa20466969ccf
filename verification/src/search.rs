//! The whole search, verified end to end: plan the chunks, run each chunk
//! of the kernel model into the staging buffer, and decode the staging
//! bytes into the satisfying indices.
//!
//! The predicate is external to this core — an opaque pure function of the
//! seed — so the pipeline takes its results as a table, one boolean per
//! item, and is verified for every possible table. The central contract:
//! whatever chunking the device limits force, the search returns exactly
//! the ascending `true` positions of the table.

use vstd::prelude::*;

verus! {

use vstd::arithmetic::div_mod::{lemma_fundamental_div_mod, lemma_mod_multiples_basic};
use crate::decoder::{decode, lemma_encode_decode_round_trip, spec_true_indices};
use crate::encoding::OutputEncoding;
use crate::errors::SearchError;
use crate::kernel::run_chunk;
use crate::planner::{
    plan_for_encoding,
    lemma_chunk_facts,
    lemma_encoding_capacity_bounds,
    lemma_plan_dispatch_covers,
    spec_chunk,
    spec_dispatch_covers,
    spec_encoding_capacity,
    spec_encoding_valid_config,
    spec_grid_invocations,
    spec_plan,
    ChunkDescriptor,
};

/// How many items of the domain are settled in the staging buffer once the
/// first `c` chunks have run: everything before chunk `c`, or the whole
/// domain when all chunks are done.
spec fn spec_processed_items(chunks: Seq<ChunkDescriptor>, total: int, c: int) -> int {
    if c >= chunks.len() {
        total
    } else {
        chunks[c].item_offset as int
    }
}

/// A search configuration the pipeline accepts: a valid encoding
/// configuration, a domain that fits the kernel's 32-bit uniform fields,
/// and a staging buffer that fits the host address space.
pub open spec fn spec_search_config_ok(
    n: int,
    enc: OutputEncoding,
    max_bind: int,
    tpw: int,
    max_wg: int,
) -> bool {
    &&& spec_encoding_valid_config(enc, max_bind, tpw, max_wg)
    &&& n <= u32::MAX
    &&& enc.spec_buffer_bytes(n) <= usize::MAX
}

/// A host-readable staging buffer, zeroed, as the device allocates it.
fn zeroed_vec(n: usize) -> (r: Vec<u8>)
    ensures
        r@.len() == n as int,
{
    let mut r: Vec<u8> = Vec::new();
    while r.len() < n
        invariant
            r@.len() <= n as int,
        decreases n as int - r@.len(),
    {
        r.push(0);
    }
    r
}

/// Run one whole search against a predicate table.
///
/// An accepted configuration always succeeds and returns exactly the
/// ascending `true` positions of the table — independent of where the
/// device limits put the chunk boundaries; a rejected one returns
/// `ConfigurationError` before any chunk runs. An empty domain plans no
/// chunks and yields the empty result.
pub fn run_search(
    pred: &Vec<bool>,
    enc: OutputEncoding,
    max_bind_bytes: u64,
    threads_per_workgroup: u32,
    max_workgroups_per_dim: u32,
) -> (r: Result<Vec<u64>, SearchError>)
    ensures
        r is Ok <==> spec_search_config_ok(
            pred@.len() as int,
            enc,
            max_bind_bytes as int,
            threads_per_workgroup as int,
            max_workgroups_per_dim as int,
        ),
        r matches Ok(ids) ==> ids@ == spec_true_indices(pred@),
        r matches Err(e) ==> e == SearchError::ConfigurationError,
{
    let ghost n_i = pred@.len() as int;
    let ghost mb_i = max_bind_bytes as int;
    let ghost tpw_i = threads_per_workgroup as int;
    let ghost mwg_i = max_workgroups_per_dim as int;
    let ghost cap = spec_encoding_capacity(enc, mb_i, tpw_i, mwg_i);
    let ghost encoded = enc.spec_encode(pred@);

    let total = pred.len() as u64;
    if total > 0xffff_ffffu64 {
        return Err(SearchError::ConfigurationError);
    }
    let chunks = match plan_for_encoding(
        total,
        enc,
        max_bind_bytes,
        threads_per_workgroup,
        max_workgroups_per_dim,
    ) {
        Ok(chunks) => chunks,
        Err(e) => {
            return Err(e);
        },
    };
    proof {
        enc.lemma_buffer_bytes_bound(n_i);
        enc.lemma_encode_len(pred@);
    }
    let staging_bytes = enc.buffer_bytes(total);
    if staging_bytes > usize::MAX as u64 {
        return Err(SearchError::ConfigurationError);
    }
    let mut staging = zeroed_vec(staging_bytes as usize);
    proof {
        // Nothing is settled yet: either the first chunk starts at item
        // zero, or the plan is empty because the domain is.
        lemma_encoding_capacity_bounds(enc, mb_i, tpw_i, mwg_i);
        vstd::arithmetic::mul::lemma_mul_basics(cap);
        if chunks@.len() == 0 {
            if n_i > 0 {
                vstd::arithmetic::div_mod::lemma_div_pos_is_pos(n_i - 1, cap);
            }
            assert(n_i == 0);
        } else {
            assert(chunks@[0] == spec_chunk(n_i, cap, tpw_i, 0));
        }
        assert(enc.spec_buffer_bytes(0) == 0) by {
            match enc {
                OutputEncoding::WidthPerItem(w) => {
                    vstd::arithmetic::mul::lemma_mul_basics(w as int);
                },
                _ => {},
            }
        };
    }

    let mut c: usize = 0;
    while c < chunks.len()
        invariant
            n_i == pred@.len(),
            mb_i == max_bind_bytes as int,
            tpw_i == threads_per_workgroup as int,
            mwg_i == max_workgroups_per_dim as int,
            cap == spec_encoding_capacity(enc, mb_i, tpw_i, mwg_i),
            encoded == enc.spec_encode(pred@),
            enc.wf(),
            spec_encoding_valid_config(enc, mb_i, tpw_i, mwg_i),
            n_i <= u32::MAX,
            threads_per_workgroup >= 1,
            chunks@ == spec_plan(n_i, cap, tpw_i),
            staging@.len() == enc.spec_buffer_bytes(n_i),
            encoded.len() == staging@.len(),
            0 <= c as int <= chunks@.len(),
            forall|b: int|
                0 <= b < enc.spec_buffer_bytes(
                    spec_processed_items(chunks@, n_i, c as int),
                ) ==> staging@[b] == encoded[b],
        decreases chunks@.len() - c as int,
    {
        let ch = chunks[c];
        proof {
            lemma_encoding_capacity_bounds(enc, mb_i, tpw_i, mwg_i);
            lemma_chunk_facts(n_i, cap, c as int);
            lemma_plan_dispatch_covers(n_i, cap, tpw_i, mwg_i);
            assert(chunks@[c as int] == spec_chunk(n_i, cap, tpw_i, c as int));
            assert(spec_dispatch_covers(chunks@[c as int], tpw_i, mwg_i));
            assert(ch.item_count <= ch.dispatch.x as int * tpw_i) by (nonlinear_arith)
                requires
                    ch.item_count <= spec_grid_invocations(ch.dispatch, tpw_i),
                    spec_grid_invocations(ch.dispatch, tpw_i) == ch.dispatch.x as int
                        * ch.dispatch.y as int * ch.dispatch.z as int * tpw_i,
                    ch.dispatch.y == 1,
                    ch.dispatch.z == 1,
            ;
            if enc is BitPacked {
                // Chunk boundaries stay on 32-item words: the capacity is a
                // multiple of 32, hence so is every chunk offset.
                lemma_fundamental_div_mod(cap, 32);
                assert(c as int * cap == 32 * (c as int * (cap / 32))) by (nonlinear_arith)
                    requires
                        cap == 32 * (cap / 32),
                ;
                lemma_mod_multiples_basic(c as int * (cap / 32), 32);
            }
        }
        run_chunk(pred, &ch, enc, threads_per_workgroup, &mut staging);
        proof {
            // The settled prefix now extends to the end of this chunk, which
            // is the next chunk's offset — or the whole domain after the
            // last chunk.
            let end = ch.item_offset + ch.item_count;
            enc.lemma_buffer_bytes_mono(ch.item_offset as int, end);
            if c as int + 1 < chunks@.len() {
                lemma_chunk_facts(n_i, cap, c as int + 1);
                vstd::arithmetic::mul::lemma_mul_is_distributive_add_other_way(
                    cap,
                    c as int,
                    1,
                );
                vstd::arithmetic::mul::lemma_mul_basics(cap);
                assert(chunks@[c as int + 1].item_offset == end);
            }
        }
        c = c + 1;
    }
    proof {
        assert(staging@ =~= encoded);
    }
    let ids = decode(&staging, total, enc);
    proof {
        lemma_encode_decode_round_trip(enc, pred@);
    }
    Ok(ids)
}

/// Running the same search twice with the same inputs yields identical
/// result sequences, in the same ascending order: `run_search` pins its
/// result to the one canonical sequence of `true` positions, so any two
/// results for the same table — whatever bind limit or dispatch bounds
/// chunked the domain — are equal.
pub proof fn lemma_search_idempotent(pred: Seq<bool>, r1: Seq<u64>, r2: Seq<u64>)
    requires
        r1 == spec_true_indices(pred),
        r2 == spec_true_indices(pred),
    ensures
        r1 == r2,
{
}

} // verus!
