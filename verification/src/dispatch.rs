//! Dispatch driving: the per-chunk uniform parameter block, its wire format,
//! and the command layout of one chunk's compute pass and copy.
//!
//! Chunks execute in strict ascending order because the uniform buffer and
//! the device output buffer are reused between chunks; all per-chunk
//! commands can be recorded into a single submission, whose queue order
//! enforces that sequencing. The structures here are plain data: an
//! unverified driver executes them against the device, and everything it
//! needs — uniform bytes, grid sizes, copy offsets — is pinned down by the
//! contracts.

use vstd::prelude::*;

verus! {

use vstd::bytes::{
    spec_u32_to_le_bytes,
    spec_u32_from_le_bytes,
    u32_to_le_bytes,
    u32_from_le_bytes,
    lemma_auto_spec_u32_to_from_le_bytes,
};
use vstd::slice::slice_subrange;
use crate::encoding::OutputEncoding;
use crate::errors::SearchError;
use crate::planner::{ChunkDescriptor, DispatchDims};

/// The uniform parameter block rewritten once per chunk: which slice of the
/// domain the chunk covers. The kernel adds `item_offset` to its flat
/// invocation index to obtain the seed, and exits without writing when the
/// index reaches `item_count`.
#[derive(Clone, Copy, Debug, PartialEq, Eq, Structural)]
pub struct UniformBlock {
    /// First item index of the chunk.
    pub item_offset: u32,
    /// Number of items in the chunk.
    pub item_count: u32,
}

impl UniformBlock {
    /// The versioned wire format shared with the kernel: the item offset
    /// then the item count, each as four little-endian bytes.
    pub open spec fn spec_bytes(self) -> Seq<u8> {
        spec_u32_to_le_bytes(self.item_offset) + spec_u32_to_le_bytes(self.item_count)
    }

    /// The block a well-formed eight-byte wire image denotes.
    pub open spec fn spec_parse(bytes: Seq<u8>) -> UniformBlock
        recommends
            bytes.len() == 8,
    {
        UniformBlock {
            item_offset: spec_u32_from_le_bytes(bytes.subrange(0, 4)),
            item_count: spec_u32_from_le_bytes(bytes.subrange(4, 8)),
        }
    }

    /// Serialize the block for the device's uniform buffer.
    pub fn to_bytes(&self) -> (r: Vec<u8>)
        ensures
            r@ == self.spec_bytes(),
            r@.len() == 8,
    {
        proof {
            lemma_auto_spec_u32_to_from_le_bytes();
        }
        let mut r = u32_to_le_bytes(self.item_offset);
        let mut tail = u32_to_le_bytes(self.item_count);
        r.append(&mut tail);
        r
    }

    /// Parse a wire image back into a block; anything but eight bytes is
    /// malformed.
    pub fn from_bytes(bytes: &Vec<u8>) -> (r: Option<UniformBlock>)
        ensures
            bytes@.len() == 8 ==> r == Some(UniformBlock::spec_parse(bytes@)),
            bytes@.len() != 8 ==> r is None,
    {
        if bytes.len() != 8 {
            return None;
        }
        let item_offset = u32_from_le_bytes(slice_subrange(bytes.as_slice(), 0, 4));
        let item_count = u32_from_le_bytes(slice_subrange(bytes.as_slice(), 4, 8));
        Some(UniformBlock { item_offset, item_count })
    }

    /// Round trip of the wire format: parsing a serialized block recovers
    /// it, field for field.
    pub proof fn lemma_bytes_round_trip(self)
        ensures
            Self::spec_parse(self.spec_bytes()) == self,
    {
        lemma_auto_spec_u32_to_from_le_bytes();
        assert(self.spec_bytes().subrange(0, 4) =~= spec_u32_to_le_bytes(self.item_offset));
        assert(self.spec_bytes().subrange(4, 8) =~= spec_u32_to_le_bytes(self.item_count));
    }
}

/// Everything the driver must do for one chunk, in order: write the uniform
/// block, dispatch the grid, and copy the chunk's output bytes to its slot
/// in the staging buffer.
#[derive(Clone, Copy, Debug, PartialEq, Eq, Structural)]
pub struct ChunkCommands {
    /// Uniform parameters to write before the chunk's compute pass.
    pub uniform: UniformBlock,
    /// Workgroup counts of the compute pass.
    pub dispatch: DispatchDims,
    /// Source byte offset of the copy, within the device output buffer.
    pub copy_source_offset: u64,
    /// Destination byte offset of the copy, within the staging buffer.
    pub copy_dest_offset: u64,
    /// Number of bytes the copy moves: the chunk's encoded footprint.
    pub copy_bytes: u64,
}

/// The commands of one chunk: its slice of the domain in the uniforms, its
/// planned grid, and a copy of its encoded bytes to the staging offset where
/// the decoder expects them.
pub open spec fn spec_chunk_commands(ch: ChunkDescriptor, enc: OutputEncoding) -> ChunkCommands {
    ChunkCommands {
        uniform: UniformBlock {
            item_offset: ch.item_offset as u32,
            item_count: ch.item_count as u32,
        },
        dispatch: ch.dispatch,
        copy_source_offset: 0,
        copy_dest_offset: enc.spec_buffer_bytes(ch.item_offset as int) as u64,
        copy_bytes: enc.spec_buffer_bytes(ch.item_count as int) as u64,
    }
}

/// Whether every chunk of a plan fits the uniform block's 32-bit fields.
pub open spec fn spec_chunks_fit_uniforms(chunks: Seq<ChunkDescriptor>) -> bool {
    forall|c: int|
        0 <= c < chunks.len() ==> (#[trigger] chunks[c]).item_offset <= u32::MAX
            && chunks[c].item_count <= u32::MAX
}

/// Build the ordered command list for a plan. A domain too large for the
/// kernel's 32-bit uniform fields cannot be dispatched and is a
/// configuration error.
pub fn plan_commands(chunks: &Vec<ChunkDescriptor>, enc: OutputEncoding) -> (r: Result<
    Vec<ChunkCommands>,
    SearchError,
>)
    requires
        enc.wf(),
    ensures
        r is Ok <==> spec_chunks_fit_uniforms(chunks@),
        r matches Ok(cmds) ==> {
            &&& cmds@.len() == chunks@.len()
            &&& forall|c: int|
                0 <= c < chunks@.len() ==> #[trigger] cmds@[c] == spec_chunk_commands(
                    chunks@[c],
                    enc,
                )
        },
        r matches Err(e) ==> e == SearchError::ConfigurationError,
{
    let mut cmds: Vec<ChunkCommands> = Vec::new();
    let mut i: usize = 0;
    while i < chunks.len()
        invariant
            enc.wf(),
            0 <= i <= chunks@.len(),
            cmds@.len() == i as int,
            forall|c: int| 0 <= c < i as int ==> (#[trigger] chunks@[c]).item_offset <= u32::MAX
                && chunks@[c].item_count <= u32::MAX,
            forall|c: int|
                0 <= c < i as int ==> #[trigger] cmds@[c] == spec_chunk_commands(chunks@[c], enc),
        decreases chunks@.len() - i as int,
    {
        let ch = chunks[i];
        if ch.item_offset > u32::MAX as u64 || ch.item_count > u32::MAX as u64 {
            return Err(SearchError::ConfigurationError);
        }
        proof {
            enc.lemma_buffer_bytes_bound(ch.item_offset as int);
            enc.lemma_buffer_bytes_bound(ch.item_count as int);
        }
        let dest = enc.buffer_bytes(ch.item_offset);
        let len = enc.buffer_bytes(ch.item_count);
        cmds.push(
            ChunkCommands {
                uniform: UniformBlock {
                    item_offset: ch.item_offset as u32,
                    item_count: ch.item_count as u32,
                },
                dispatch: ch.dispatch,
                copy_source_offset: 0,
                copy_dest_offset: dest,
                copy_bytes: len,
            },
        );
        i = i + 1;
    }
    Ok(cmds)
}

} // verus!
