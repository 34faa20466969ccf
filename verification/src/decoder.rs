//! Readback decoding: interpret the staging buffer's raw bytes under the
//! active output encoding and produce the satisfying item indices, in
//! ascending order.

use vstd::prelude::*;

verus! {

use vstd::arithmetic::div_mod::{
    lemma_fundamental_div_mod,
    lemma_fundamental_div_mod_converse,
    lemma_div_is_ordered,
};
use vstd::arithmetic::mul::lemma_mul_nonnegative;
use crate::encoding::{OutputEncoding, spec_le_val};

/// The ascending sequence of indices in `[0, n)` whose flags `bytes` marks
/// satisfied under the encoding.
pub open spec fn spec_satisfying_indices(enc: OutputEncoding, bytes: Seq<u8>, n: int) -> Seq<u64>
    decreases n,
{
    if n <= 0 {
        Seq::empty()
    } else {
        spec_satisfying_indices(enc, bytes, n - 1) + (if enc.spec_decoded(bytes, n - 1) {
            seq![(n - 1) as u64]
        } else {
            Seq::empty()
        })
    }
}

/// The ascending sequence of positions in `[0, n)` holding `true` in a
/// result table.
pub open spec fn spec_true_indices_upto(results: Seq<bool>, n: int) -> Seq<u64>
    decreases n,
{
    if n <= 0 {
        Seq::empty()
    } else {
        spec_true_indices_upto(results, n - 1) + (if 0 <= n - 1 < results.len() && results[n - 1] {
            seq![(n - 1) as u64]
        } else {
            Seq::empty()
        })
    }
}

/// The ascending sequence of all `true` positions of a result table.
pub open spec fn spec_true_indices(results: Seq<bool>) -> Seq<u64> {
    spec_true_indices_upto(results, results.len() as int)
}

/// What the decoded sequence holds: exactly the satisfied indices below
/// `n`, each below `n`, in strictly ascending order.
pub proof fn lemma_satisfying_indices_props(enc: OutputEncoding, bytes: Seq<u8>, n: int)
    requires
        0 <= n <= u64::MAX,
    ensures
        forall|j: int|
            0 <= j < spec_satisfying_indices(enc, bytes, n).len() ==> #[trigger] spec_satisfying_indices(enc, bytes, n)[j] < n
                && enc.spec_decoded(bytes, spec_satisfying_indices(enc, bytes, n)[j] as int),
        forall|j: int, k: int|
            0 <= j < k < spec_satisfying_indices(enc, bytes, n).len()
                ==> spec_satisfying_indices(enc, bytes, n)[j] < spec_satisfying_indices(
                enc,
                bytes,
                n,
            )[k],
        forall|i: int|
            0 <= i < n && enc.spec_decoded(bytes, i) ==> spec_satisfying_indices(
                enc,
                bytes,
                n,
            ).contains(i as u64),
    decreases n,
{
    if n > 0 {
        lemma_satisfying_indices_props(enc, bytes, n - 1);
        let prev = spec_satisfying_indices(enc, bytes, n - 1);
        let cur = spec_satisfying_indices(enc, bytes, n);
        assert forall|j: int| 0 <= j < cur.len() implies #[trigger] cur[j] < n
            && enc.spec_decoded(bytes, cur[j] as int) by {
            if j < prev.len() {
                assert(cur[j] == prev[j]);
            } else {
                assert(cur[j] == (n - 1) as u64);
            }
        };
        assert forall|j: int, k: int| 0 <= j < k < cur.len() implies cur[j] < cur[k] by {
            assert(cur[j] == prev[j]);
            if k < prev.len() {
                assert(cur[k] == prev[k]);
            } else {
                assert(cur[k] == (n - 1) as u64);
                assert(prev[j] < n - 1);
            }
        };
        assert forall|i: int| 0 <= i < n && enc.spec_decoded(bytes, i) implies cur.contains(
            i as u64,
        ) by {
            if i < n - 1 {
                assert(prev.contains(i as u64));
                let j = choose|j: int| 0 <= j < prev.len() && prev[j] == i as u64;
                assert(cur[j] == i as u64);
            } else {
                assert(cur[cur.len() - 1] == i as u64);
            }
        };
    }
}

/// Whether `bytes` marks item `i` as satisfying the predicate: one bit, one
/// byte, or one fixed-width little-endian flag, per the encoding.
pub fn decoded_item(bytes: &Vec<u8>, i: u64, enc: OutputEncoding) -> (r: bool)
    requires
        enc.wf(),
        i <= u32::MAX,
        enc.spec_buffer_bytes(i as int + 1) <= bytes@.len(),
    ensures
        r == enc.spec_decoded(bytes@, i as int),
{
    let bn = bytes.len();
    match enc {
        OutputEncoding::BitPacked => {
            proof {
                // Byte i / 8 lies inside the buffer sized for i + 1 items.
                let q = (i + 32) / 32;
                lemma_fundamental_div_mod(i as int + 32, 32);
                assert(i as int <= 32 * q - 1);
                lemma_div_is_ordered(i as int, 32 * q - 1, 8);
                lemma_fundamental_div_mod_converse(32 * q - 1, 8, 4 * q - 1, 7);
            }
            let byte = bytes[(i / 8) as usize];
            let sh = (i % 8) as u8;
            (byte >> sh) & 1 == 1
        },
        OutputEncoding::BytePerItem => bytes[i as usize] != 0,
        OutputEncoding::WidthPerItem(w) => {
            proof {
                lemma_mul_nonnegative(i as int, w as int);
                assert((i as int + 1) * w == i as int * w + w) by (nonlinear_arith);
            }
            let start = i * w;
            // Assemble the little-endian flag from the top byte down.
            let mut k = w;
            let mut val: u64 = 0;
            while k > 0
                invariant
                    1 <= w <= 8,
                    0 <= k <= w,
                    start as int == i as int * w,
                    start + w <= bn,
                    bn as int == bytes@.len(),
                    val == spec_le_val(bytes@, start as int + k, w as int - k),
                decreases k,
            {
                proof {
                    // At most seven bytes are assembled so far, so the next
                    // multiply-and-add stays within a u64.
                    lemma_le_val_bound(bytes@, start as int + k, w as int - k);
                    vstd::arithmetic::power2::lemma2_to64();
                    vstd::arithmetic::power2::lemma2_to64_rest();
                    if 8 * (w as int - k) < 56 {
                        vstd::arithmetic::power2::lemma_pow2_strictly_increases(
                            (8 * (w as int - k)) as nat,
                            56,
                        );
                    }
                }
                let b = bytes[(start + k - 1) as usize];
                val = val * 256 + b as u64;
                k = k - 1;
            }
            val == 1
        },
    }
}

/// A little-endian field of `w` bytes stays below 2^(8w); in particular the
/// eight-byte assembly in `decoded_item` never overflows a `u64`.
proof fn lemma_le_val_bound(bytes: Seq<u8>, start: int, w: int)
    requires
        w >= 0,
    ensures
        0 <= spec_le_val(bytes, start, w) < vstd::arithmetic::power2::pow2((8 * w) as nat),
    decreases w,
{
    vstd::arithmetic::power2::lemma2_to64();
    if w > 0 {
        lemma_le_val_bound(bytes, start + 1, w - 1);
        vstd::arithmetic::power2::lemma_pow2_adds(8, (8 * (w - 1)) as nat);
    }
}

/// Decode the staging buffer: the satisfying item indices of the first
/// `total_items` items, in ascending order.
pub fn decode(bytes: &Vec<u8>, total_items: u64, enc: OutputEncoding) -> (r: Vec<u64>)
    requires
        enc.wf(),
        total_items <= u32::MAX,
        enc.spec_buffer_bytes(total_items as int) <= bytes@.len(),
    ensures
        r@ == spec_satisfying_indices(enc, bytes@, total_items as int),
{
    let mut r: Vec<u64> = Vec::new();
    let mut i: u64 = 0;
    while i < total_items
        invariant
            enc.wf(),
            total_items <= u32::MAX,
            enc.spec_buffer_bytes(total_items as int) <= bytes@.len(),
            0 <= i <= total_items,
            r@ == spec_satisfying_indices(enc, bytes@, i as int),
        decreases total_items as int - i as int,
    {
        proof {
            enc.lemma_buffer_bytes_mono(i as int + 1, total_items as int);
        }
        if decoded_item(bytes, i, enc) {
            r.push(i);
            proof {
                assert(r@ =~= spec_satisfying_indices(enc, bytes@, i as int) + seq![i]);
            }
        }
        i = i + 1;
    }
    r
}

/// Round trip: decoding the canonical encoding of a result table yields
/// exactly the table's `true` positions — the first `n` of them, for any
/// prefix.
pub proof fn lemma_encode_decode_round_trip_upto(enc: OutputEncoding, results: Seq<bool>, n: int)
    requires
        enc.wf(),
        0 <= n <= results.len(),
    ensures
        spec_satisfying_indices(enc, enc.spec_encode(results), n) == spec_true_indices_upto(
            results,
            n,
        ),
    decreases n,
{
    if n > 0 {
        lemma_encode_decode_round_trip_upto(enc, results, n - 1);
        enc.lemma_encode_decode(results, n - 1);
    }
}

/// Round trip over the whole table: encoding then decoding an arbitrary
/// result sequence reproduces exactly its set of `true` indices, in
/// ascending order.
pub proof fn lemma_encode_decode_round_trip(enc: OutputEncoding, results: Seq<bool>)
    requires
        enc.wf(),
    ensures
        spec_satisfying_indices(enc, enc.spec_encode(results), results.len() as int)
            == spec_true_indices(results),
{
    lemma_encode_decode_round_trip_upto(enc, results, results.len() as int);
}

} // verus!
