//! Output encodings: how one boolean predicate result is serialized into
//! device memory, and how the raw bytes read back from the device are
//! interpreted.
//!
//! Three schemes coexist, with different trade-offs between storage cost and
//! write contention on the device:
//! - `BitPacked`: 32 items per 4-byte word; bit `i % 32` of little-endian
//!   word `i / 32`, which is the same bit as bit `i % 8` of byte `i / 8`.
//!   Concurrent writers share words, so the device must OR bits in
//!   atomically.
//! - `BytePerItem`: one byte per item, nonzero meaning `true`.
//! - `WidthPerItem(w)`: a `w`-byte little-endian integer flag per item
//!   (`w` one of 1, 2, 4, 8), equal to the sentinel `1` when `true`.

use vstd::prelude::*;

verus! {

use vstd::arithmetic::div_mod::{
    lemma_fundamental_div_mod,
    lemma_fundamental_div_mod_converse,
};

/// The serialization scheme mapping one boolean result to bytes in the
/// device output buffer.
#[derive(Clone, Copy, Debug, PartialEq, Eq, Structural)]
pub enum OutputEncoding {
    /// Items packed 32 per 4-byte word, set with an atomic OR on the device.
    BitPacked,
    /// One byte per item: no write contention, simplest decode, `N` bytes.
    BytePerItem,
    /// A fixed-width little-endian integer flag per item; the payload is the
    /// width in bytes and must be 1, 2, 4 or 8.
    WidthPerItem(u64),
}

impl OutputEncoding {
    /// A well-formed encoding: any fixed width is one of the supported ones.
    pub open spec fn wf(self) -> bool {
        match self {
            OutputEncoding::BitPacked => true,
            OutputEncoding::BytePerItem => true,
            OutputEncoding::WidthPerItem(w) => w == 1 || w == 2 || w == 4 || w == 8,
        }
    }

    /// Runtime check of `wf`.
    pub fn is_wf(&self) -> (r: bool)
        ensures
            r == self.wf(),
    {
        match self {
            OutputEncoding::BitPacked => true,
            OutputEncoding::BytePerItem => true,
            OutputEncoding::WidthPerItem(w) => *w == 1 || *w == 2 || *w == 4 || *w == 8,
        }
    }

    /// Whether concurrent device writers to the same output word must be
    /// synchronized. Only `BitPacked` shares words between items.
    pub open spec fn spec_needs_atomic_writes(self) -> bool {
        self is BitPacked
    }

    /// Runtime check of `spec_needs_atomic_writes`.
    pub fn needs_atomic_writes(&self) -> (r: bool)
        ensures
            r == self.spec_needs_atomic_writes(),
    {
        matches!(self, OutputEncoding::BitPacked)
    }

    /// How many bytes of output buffer `n` items occupy under this encoding.
    pub open spec fn spec_buffer_bytes(self, n: int) -> int {
        match self {
            OutputEncoding::BitPacked => ((n + 31) / 32) * 4,
            OutputEncoding::BytePerItem => n,
            OutputEncoding::WidthPerItem(w) => n * w,
        }
    }

    /// Executable buffer sizing.
    pub fn buffer_bytes(&self, n: u64) -> (r: u64)
        requires
            self.wf(),
            self.spec_buffer_bytes(n as int) <= u64::MAX,
        ensures
            r == self.spec_buffer_bytes(n as int),
    {
        match self {
            OutputEncoding::BitPacked => {
                let words: u64 = n / 32 + if n % 32 != 0 { 1 } else { 0 };
                proof {
                    lemma_fundamental_div_mod(n as int, 32);
                    if n % 32 != 0 {
                        lemma_fundamental_div_mod_converse(
                            n as int + 31,
                            32,
                            n as int / 32 + 1,
                            n as int % 32 - 1,
                        );
                    } else {
                        lemma_fundamental_div_mod_converse(
                            n as int + 31,
                            32,
                            n as int / 32,
                            31,
                        );
                    }
                }
                words * 4
            },
            OutputEncoding::BytePerItem => n,
            OutputEncoding::WidthPerItem(w) => n * *w,
        }
    }

    /// The canonical buffer contents for a whole sequence of predicate
    /// results.
    pub open spec fn spec_encode(self, results: Seq<bool>) -> Seq<u8> {
        match self {
            OutputEncoding::BitPacked => Seq::new(
                (((results.len() + 31) / 32) * 4) as nat,
                |b: int| spec_pack_byte(results, b * 8),
            ),
            OutputEncoding::BytePerItem => Seq::new(
                results.len(),
                |i: int| if results[i] { 1u8 } else { 0u8 },
            ),
            OutputEncoding::WidthPerItem(w) => Seq::new(
                (results.len() * w) as nat,
                |b: int| if b % (w as int) == 0 && results[b / (w as int)] { 1u8 } else { 0u8 },
            ),
        }
    }

    /// Whether the buffer bytes mark item `i` as satisfying the predicate.
    pub open spec fn spec_decoded(self, bytes: Seq<u8>, i: int) -> bool
        recommends
            self.wf(),
            0 <= i,
            self.spec_buffer_bytes(i + 1) <= bytes.len(),
    {
        match self {
            OutputEncoding::BitPacked => (bytes[i / 8] >> ((i % 8) as u8)) & 1 == 1,
            OutputEncoding::BytePerItem => bytes[i] != 0,
            OutputEncoding::WidthPerItem(w) => spec_le_val(bytes, i * (w as int), w as int) == 1,
        }
    }

    /// Buffer sizes are monotone in the item count.
    pub proof fn lemma_buffer_bytes_mono(self, m: int, n: int)
        requires
            self.wf(),
            0 <= m <= n,
        ensures
            0 <= self.spec_buffer_bytes(m) <= self.spec_buffer_bytes(n),
    {
        match self {
            OutputEncoding::BitPacked => {
                vstd::arithmetic::div_mod::lemma_div_is_ordered(m + 31, n + 31, 32);
                vstd::arithmetic::div_mod::lemma_div_pos_is_pos(m + 31, 32);
            },
            OutputEncoding::BytePerItem => {},
            OutputEncoding::WidthPerItem(w) => {
                vstd::arithmetic::mul::lemma_mul_inequality(m, n, w as int);
                vstd::arithmetic::mul::lemma_mul_nonnegative(m, w as int);
            },
        }
    }

    /// A domain that fits the kernel's 32-bit uniform fields has a buffer
    /// footprint far below the address range.
    pub proof fn lemma_buffer_bytes_bound(self, n: int)
        requires
            self.wf(),
            0 <= n <= u32::MAX,
        ensures
            0 <= self.spec_buffer_bytes(n) <= 8 * 0x1_0000_0000,
    {
        match self {
            OutputEncoding::BitPacked => {
                vstd::arithmetic::div_mod::lemma_div_is_ordered(n + 31, 0x2_0000_0000, 32);
                vstd::arithmetic::div_mod::lemma_div_pos_is_pos(n + 31, 32);
            },
            OutputEncoding::BytePerItem => {},
            OutputEncoding::WidthPerItem(w) => {
                vstd::arithmetic::mul::lemma_mul_inequality(n, u32::MAX as int, w as int);
                vstd::arithmetic::mul::lemma_mul_nonnegative(n, w as int);
            },
        }
    }

    /// The encoded buffer has exactly the advertised size.
    pub proof fn lemma_encode_len(self, results: Seq<bool>)
        requires
            self.wf(),
        ensures
            self.spec_encode(results).len() == self.spec_buffer_bytes(results.len() as int),
    {
    }

    /// Round trip, item by item: decoding the canonical encoding of a result
    /// sequence recovers exactly that sequence.
    pub proof fn lemma_encode_decode(self, results: Seq<bool>, i: int)
        requires
            self.wf(),
            0 <= i < results.len(),
        ensures
            self.spec_decoded(self.spec_encode(results), i) == results[i],
    {
        let bytes = self.spec_encode(results);
        match self {
            OutputEncoding::BitPacked => {
                lemma_fundamental_div_mod(i, 8);
                let q = i / 8;
                let k = i % 8;
                // i < results.len() puts byte i / 8 inside the padded buffer.
                assert(q < bytes.len()) by {
                    let n = results.len() as int;
                    let words = (n + 31) / 32;
                    lemma_fundamental_div_mod(n + 31, 32);
                    assert(32 * words >= n);
                    assert(i <= 32 * words - 1);
                    lemma_fundamental_div_mod_converse(
                        32 * words - 1,
                        8,
                        4 * words - 1,
                        7,
                    );
                    vstd::arithmetic::div_mod::lemma_div_is_ordered(i, 32 * words - 1, 8);
                };
                assert(bytes[q] == spec_pack_byte(results, q * 8));
                lemma_pack_byte_extract(
                    spec_bit(results, q * 8),
                    spec_bit(results, q * 8 + 1),
                    spec_bit(results, q * 8 + 2),
                    spec_bit(results, q * 8 + 3),
                    spec_bit(results, q * 8 + 4),
                    spec_bit(results, q * 8 + 5),
                    spec_bit(results, q * 8 + 6),
                    spec_bit(results, q * 8 + 7),
                    k as u8,
                );
                assert(q * 8 + k == i);
            },
            OutputEncoding::BytePerItem => {},
            OutputEncoding::WidthPerItem(w) => {
                let wi = w as int;
                let start = i * wi;
                assert(0 <= start && start + wi <= bytes.len()) by {
                    vstd::arithmetic::mul::lemma_mul_inequality(i + 1, results.len() as int, wi);
                    vstd::arithmetic::mul::lemma_mul_is_distributive_add_other_way(wi, i, 1);
                    vstd::arithmetic::mul::lemma_mul_nonnegative(i, wi);
                };
                assert forall|b: int| start <= b < start + wi implies #[trigger] bytes[b] == (
                    if b == start && results[i] { 1u8 } else { 0u8 }
                ) by {
                    lemma_fundamental_div_mod_converse(b, wi, i, b - start);
                };
                if results[i] {
                    lemma_le_val_unit(bytes, start, wi);
                } else {
                    lemma_le_val_zero(bytes, start, wi);
                }
            },
        }
    }
}

/// The contribution of result `i` to a packed byte: 1 for a satisfied item,
/// 0 for an unsatisfied or out-of-range one.
pub open spec fn spec_bit(results: Seq<bool>, i: int) -> u8 {
    if 0 <= i < results.len() && results[i] { 1u8 } else { 0u8 }
}

/// Eight consecutive results packed into one byte, least significant bit
/// first.
pub open spec fn spec_pack_byte(results: Seq<bool>, base: int) -> u8 {
    spec_bit(results, base)
        | (spec_bit(results, base + 1) << 1)
        | (spec_bit(results, base + 2) << 2)
        | (spec_bit(results, base + 3) << 3)
        | (spec_bit(results, base + 4) << 4)
        | (spec_bit(results, base + 5) << 5)
        | (spec_bit(results, base + 6) << 6)
        | (spec_bit(results, base + 7) << 7)
}

/// The unsigned little-endian value of `w` bytes starting at `start`.
pub open spec fn spec_le_val(bytes: Seq<u8>, start: int, w: int) -> int
    recommends
        0 <= start,
        start + w <= bytes.len(),
    decreases w,
{
    if w <= 0 {
        0
    } else {
        bytes[start] + 256 * spec_le_val(bytes, start + 1, w - 1)
    }
}

/// A little-endian field whose bytes are all zero has value zero.
pub proof fn lemma_le_val_zero(bytes: Seq<u8>, start: int, w: int)
    requires
        forall|b: int| start <= b < start + w ==> #[trigger] bytes[b] == 0u8,
    ensures
        spec_le_val(bytes, start, w) == 0,
    decreases w,
{
    if w > 0 {
        lemma_le_val_zero(bytes, start + 1, w - 1);
        assert(bytes[start] == 0u8);
    }
}

/// A little-endian field with lowest byte 1 and all higher bytes zero has
/// value one.
pub proof fn lemma_le_val_unit(bytes: Seq<u8>, start: int, w: int)
    requires
        w >= 1,
        bytes[start] == 1u8,
        forall|b: int| start + 1 <= b < start + w ==> #[trigger] bytes[b] == 0u8,
    ensures
        spec_le_val(bytes, start, w) == 1,
{
    lemma_le_val_zero(bytes, start + 1, w - 1);
}

/// Shifting a packed byte right by `k` extracts bit `k`: the heart of the
/// bit-packed decode.
pub proof fn lemma_pack_byte_extract(
    b0: u8,
    b1: u8,
    b2: u8,
    b3: u8,
    b4: u8,
    b5: u8,
    b6: u8,
    b7: u8,
    k: u8,
)
    by (bit_vector)
    requires
        b0 <= 1,
        b1 <= 1,
        b2 <= 1,
        b3 <= 1,
        b4 <= 1,
        b5 <= 1,
        b6 <= 1,
        b7 <= 1,
        k < 8,
    ensures
        k == 0 ==> ((b0 | (b1 << 1) | (b2 << 2) | (b3 << 3) | (b4 << 4) | (b5 << 5) | (b6 << 6)
            | (b7 << 7)) >> k) & 1 == b0,
        k == 1 ==> ((b0 | (b1 << 1) | (b2 << 2) | (b3 << 3) | (b4 << 4) | (b5 << 5) | (b6 << 6)
            | (b7 << 7)) >> k) & 1 == b1,
        k == 2 ==> ((b0 | (b1 << 1) | (b2 << 2) | (b3 << 3) | (b4 << 4) | (b5 << 5) | (b6 << 6)
            | (b7 << 7)) >> k) & 1 == b2,
        k == 3 ==> ((b0 | (b1 << 1) | (b2 << 2) | (b3 << 3) | (b4 << 4) | (b5 << 5) | (b6 << 6)
            | (b7 << 7)) >> k) & 1 == b3,
        k == 4 ==> ((b0 | (b1 << 1) | (b2 << 2) | (b3 << 3) | (b4 << 4) | (b5 << 5) | (b6 << 6)
            | (b7 << 7)) >> k) & 1 == b4,
        k == 5 ==> ((b0 | (b1 << 1) | (b2 << 2) | (b3 << 3) | (b4 << 4) | (b5 << 5) | (b6 << 6)
            | (b7 << 7)) >> k) & 1 == b5,
        k == 6 ==> ((b0 | (b1 << 1) | (b2 << 2) | (b3 << 3) | (b4 << 4) | (b5 << 5) | (b6 << 6)
            | (b7 << 7)) >> k) & 1 == b6,
        k == 7 ==> ((b0 | (b1 << 1) | (b2 << 2) | (b3 << 3) | (b4 << 4) | (b5 << 5) | (b6 << 6)
            | (b7 << 7)) >> k) & 1 == b7,
{
}

} // verus!
