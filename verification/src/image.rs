//! The on-disk image of the store: the jump table, then the metadata zone,
//! then the arena, as one flat run of bytes, and the restoration of the free
//! pointer when an image is loaded.

use crate::layout::{spec_len, spec_offset, unpack_coordinates, ARENA_SIZE, MAX_ITEMS};
use crate::store::{MetadataRow, PlatoStore, StoreModel};
use vstd::bytes::{
    spec_u32_from_le_bytes, spec_u32_to_le_bytes, spec_u64_from_le_bytes, spec_u64_to_le_bytes,
    u32_from_le_bytes, u32_to_le_bytes, u64_from_le_bytes, u64_to_le_bytes,
};
use vstd::prelude::*;

verus! {

/// Bytes of the jump table in an image: eight per slot.
pub const JUMP_BYTES: usize = 8192;

/// Bytes of the metadata zone in an image: eight per slot.
pub const META_BYTES: usize = 8192;

/// Bytes of a whole image.
pub const IMAGE_SIZE: usize = 540672;

/// Why an image could not be loaded.
#[derive(Clone, Copy, Debug, PartialEq, Eq, Structural)]
pub enum ImageError {
    /// The image ends before the arena does.
    TooShort,
}

/// The eight bytes of a metadata row: the timestamp, little-endian, then
/// the content type, the author, the target and the padding.
pub open spec fn row_bytes(r: MetadataRow) -> Seq<u8> {
    spec_u32_to_le_bytes(r.timestamp) + seq![r.content_type, r.author_id, r.target_id, r.padding]
}

/// The metadata row that eight image bytes encode.
pub open spec fn row_of_bytes(b: Seq<u8>) -> MetadataRow {
    MetadataRow {
        timestamp: spec_u32_from_le_bytes(b.subrange(0, 4)),
        content_type: b[4],
        author_id: b[5],
        target_id: b[6],
        padding: b[7],
    }
}

/// Whether `img` is the image of the store `m`.
pub open spec fn is_image_of(img: Seq<u8>, m: StoreModel) -> bool {
    &&& img.len() == IMAGE_SIZE
    &&& forall|k: int|
        0 <= k < MAX_ITEMS ==> #[trigger] img.subrange(8 * k, 8 * k + 8) == spec_u64_to_le_bytes(
            m.jump_table[k],
        )
    &&& forall|k: int|
        0 <= k < MAX_ITEMS ==> #[trigger] img.subrange(
            JUMP_BYTES + 8 * k,
            JUMP_BYTES + 8 * k + 8,
        ) == row_bytes(m.metadata[k])
    &&& img.subrange(JUMP_BYTES + META_BYTES, IMAGE_SIZE as int) == m.arena
}

/// The 32-bit sum of an offset and a length, wrapping on overflow.
pub open spec fn wrapping_tail(offset: u32, len: u32) -> u32 {
    if offset + len < 0x1_0000_0000 {
        (offset + len) as u32
    } else {
        (offset + len - 0x1_0000_0000) as u32
    }
}

/// The largest end (offset plus length) of the non-empty coordinates among
/// the first `n` slots, or 0.
pub open spec fn restored_tail(jump: Seq<u64>, n: int) -> u32
    decreases n,
{
    if n <= 0 {
        0
    } else {
        let prev = restored_tail(jump, n - 1);
        let p = jump[n - 1];
        if p != 0 && wrapping_tail(spec_offset(p), spec_len(p)) > prev {
            wrapping_tail(spec_offset(p), spec_len(p))
        } else {
            prev
        }
    }
}

/// The store that an image holds: its tables, and the free pointer set to
/// the restored tail of its jump table.
pub open spec fn decoded_tables(img: Seq<u8>, m: StoreModel) -> bool {
    &&& m.wf()
    &&& forall|k: int|
        0 <= k < MAX_ITEMS ==> #[trigger] m.jump_table[k] == spec_u64_from_le_bytes(
            img.subrange(8 * k, 8 * k + 8),
        )
    &&& forall|k: int|
        0 <= k < MAX_ITEMS ==> #[trigger] m.metadata[k] == row_of_bytes(
            img.subrange(JUMP_BYTES + 8 * k, JUMP_BYTES + 8 * k + 8),
        )
    &&& m.arena == img.subrange(JUMP_BYTES + META_BYTES, IMAGE_SIZE as int)
    &&& m.free_pointer == restored_tail(m.jump_table, MAX_ITEMS as int)
}

/// The end of a packed coordinate, offset plus length, wrapping at 2^32.
fn coordinate_tail(packed: u64) -> (t: u32)
    ensures
        t == wrapping_tail(spec_offset(packed), spec_len(packed)),
{
    let (offset, len) = unpack_coordinates(packed);
    let sum: u64 = offset as u64 + len as u64;
    if sum < 0x1_0000_0000u64 {
        sum as u32
    } else {
        (sum - 0x1_0000_0000u64) as u32
    }
}

/// The free pointer that loading restores: the largest end among the
/// non-empty coordinates of the jump table, or 0.
pub fn restore_free_pointer(jump: &Vec<u64>) -> (t: u32)
    requires
        jump@.len() == MAX_ITEMS,
    ensures
        t == restored_tail(jump@, MAX_ITEMS as int),
{
    let mut max_tail: u32 = 0;
    let mut k: usize = 0;
    while k < MAX_ITEMS
        invariant
            jump@.len() == MAX_ITEMS,
            k <= MAX_ITEMS,
            max_tail == restored_tail(jump@, k as int),
        decreases MAX_ITEMS - k,
    {
        let packed = jump[k];
        if packed != 0 {
            let tail = coordinate_tail(packed);
            if tail > max_tail {
                max_tail = tail;
            }
        }
        k = k + 1;
    }
    max_tail
}

impl PlatoStore {
    /// Loads a store from an image: the tables are read back as they were
    /// written and the free pointer is restored from the jump table. Bytes
    /// past the image's size are ignored.
    pub fn from_image(image: &[u8]) -> (r: Result<PlatoStore, ImageError>)
        ensures
            r is Err <==> image@.len() < IMAGE_SIZE,
            r matches Ok(s) ==> decoded_tables(image@, s@),
    {
        if image.len() < IMAGE_SIZE {
            return Err(ImageError::TooShort);
        }
        let mut jump_table: Vec<u64> = Vec::new();
        let mut k: usize = 0;
        while k < MAX_ITEMS
            invariant
                image@.len() >= IMAGE_SIZE,
                k <= MAX_ITEMS,
                jump_table@.len() == k,
                forall|j: int|
                    0 <= j < k ==> #[trigger] jump_table@[j] == spec_u64_from_le_bytes(
                        image@.subrange(8 * j, 8 * j + 8),
                    ),
            decreases MAX_ITEMS - k,
        {
            let b = vstd::slice::slice_subrange(image, 8 * k, 8 * k + 8);
            jump_table.push(u64_from_le_bytes(b));
            k = k + 1;
        }
        let mut metadata: Vec<MetadataRow> = Vec::new();
        k = 0;
        while k < MAX_ITEMS
            invariant
                image@.len() >= IMAGE_SIZE,
                k <= MAX_ITEMS,
                metadata@.len() == k,
                forall|j: int|
                    0 <= j < k ==> #[trigger] metadata@[j] == row_of_bytes(
                        image@.subrange(JUMP_BYTES + 8 * j, JUMP_BYTES + 8 * j + 8),
                    ),
            decreases MAX_ITEMS - k,
        {
            let b = vstd::slice::slice_subrange(image, JUMP_BYTES + 8 * k, JUMP_BYTES + 8 * k + 8);
            let ts = u32_from_le_bytes(vstd::slice::slice_subrange(b, 0, 4));
            metadata.push(
                MetadataRow {
                    timestamp: ts,
                    content_type: b[4],
                    author_id: b[5],
                    target_id: b[6],
                    padding: b[7],
                },
            );
            k = k + 1;
        }
        let mut arena: Vec<u8> = Vec::new();
        let mut i: usize = 0;
        while i < ARENA_SIZE
            invariant
                image@.len() >= IMAGE_SIZE,
                i <= ARENA_SIZE,
                arena@ == image@.subrange(JUMP_BYTES + META_BYTES, JUMP_BYTES + META_BYTES + i),
            decreases ARENA_SIZE - i,
        {
            arena.push(image[JUMP_BYTES + META_BYTES + i]);
            assert(arena@ =~= image@.subrange(JUMP_BYTES + META_BYTES, JUMP_BYTES + META_BYTES + i + 1));
            i = i + 1;
        }
        let free_pointer = restore_free_pointer(&jump_table);
        Ok(PlatoStore { arena, free_pointer, jump_table, metadata })
    }

    /// The image of the store, as the disk holds it.
    pub fn to_image(&self) -> (img: Vec<u8>)
        requires
            self@.wf(),
        ensures
            is_image_of(img@, self@),
    {
        let mut out: Vec<u8> = Vec::new();
        let mut k: usize = 0;
        while k < MAX_ITEMS
            invariant
                self@.wf(),
                k <= MAX_ITEMS,
                out@.len() == 8 * k,
                forall|j: int|
                    0 <= j < k ==> #[trigger] out@.subrange(8 * j, 8 * j + 8)
                        == spec_u64_to_le_bytes(self.jump_table@[j]),
            decreases MAX_ITEMS - k,
        {
            let ghost prev = out@;
            let mut b = u64_to_le_bytes(self.jump_table[k]);
            out.append(&mut b);
            assert forall|j: int| 0 <= j < k + 1 implies #[trigger] out@.subrange(8 * j, 8 * j + 8)
                == spec_u64_to_le_bytes(self.jump_table@[j]) by {
                if j < k {
                    assert(out@.subrange(8 * j, 8 * j + 8) =~= prev.subrange(8 * j, 8 * j + 8));
                } else {
                    assert(out@.subrange(8 * j, 8 * j + 8) =~= spec_u64_to_le_bytes(
                        self.jump_table@[j],
                    ));
                }
            }
            k = k + 1;
        }
        let ghost jumps = out@;
        k = 0;
        while k < MAX_ITEMS
            invariant
                self@.wf(),
                k <= MAX_ITEMS,
                jumps.len() == JUMP_BYTES,
                out@.len() == JUMP_BYTES + 8 * k,
                out@.subrange(0, JUMP_BYTES as int) == jumps,
                forall|j: int|
                    0 <= j < k ==> #[trigger] out@.subrange(
                        JUMP_BYTES + 8 * j,
                        JUMP_BYTES + 8 * j + 8,
                    ) == row_bytes(self.metadata@[j]),
            decreases MAX_ITEMS - k,
        {
            let ghost prev = out@;
            let row = self.metadata[k];
            let mut b = u32_to_le_bytes(row.timestamp);
            b.push(row.content_type);
            b.push(row.author_id);
            b.push(row.target_id);
            b.push(row.padding);
            assert(b@ =~= row_bytes(row));
            out.append(&mut b);
            assert(out@.subrange(0, JUMP_BYTES as int) =~= prev.subrange(0, JUMP_BYTES as int));
            assert forall|j: int| 0 <= j < k + 1 implies #[trigger] out@.subrange(
                JUMP_BYTES + 8 * j,
                JUMP_BYTES + 8 * j + 8,
            ) == row_bytes(self.metadata@[j]) by {
                if j < k {
                    assert(out@.subrange(JUMP_BYTES + 8 * j, JUMP_BYTES + 8 * j + 8)
                        =~= prev.subrange(JUMP_BYTES + 8 * j, JUMP_BYTES + 8 * j + 8));
                } else {
                    assert(out@.subrange(JUMP_BYTES + 8 * j, JUMP_BYTES + 8 * j + 8) =~= row_bytes(
                        self.metadata@[j],
                    ));
                }
            }
            k = k + 1;
        }
        let ghost tables = out@;
        let mut i: usize = 0;
        while i < ARENA_SIZE
            invariant
                self@.wf(),
                i <= ARENA_SIZE,
                tables.len() == JUMP_BYTES + META_BYTES,
                out@.len() == JUMP_BYTES + META_BYTES + i,
                out@.subrange(0, JUMP_BYTES + META_BYTES) == tables,
                out@.subrange(JUMP_BYTES + META_BYTES, JUMP_BYTES + META_BYTES + i)
                    == self.arena@.subrange(0, i as int),
            decreases ARENA_SIZE - i,
        {
            let ghost prev = out@;
            out.push(self.arena[i]);
            assert(out@.subrange(0, JUMP_BYTES + META_BYTES) =~= prev.subrange(
                0,
                JUMP_BYTES + META_BYTES,
            ));
            assert(out@.subrange(JUMP_BYTES + META_BYTES, JUMP_BYTES + META_BYTES + i + 1)
                =~= self.arena@.subrange(0, i + 1));
            i = i + 1;
        }
        proof {
            assert(self.arena@.subrange(0, ARENA_SIZE as int) =~= self.arena@);
            assert forall|k: int| 0 <= k < MAX_ITEMS implies #[trigger] out@.subrange(
                8 * k,
                8 * k + 8,
            ) == spec_u64_to_le_bytes(self.jump_table@[k]) by {
                assert(out@.subrange(8 * k, 8 * k + 8) =~= tables.subrange(8 * k, 8 * k + 8));
                assert(tables.subrange(8 * k, 8 * k + 8) =~= jumps.subrange(8 * k, 8 * k + 8));
            }
            assert forall|k: int| 0 <= k < MAX_ITEMS implies #[trigger] out@.subrange(
                JUMP_BYTES + 8 * k,
                JUMP_BYTES + 8 * k + 8,
            ) == row_bytes(self.metadata@[k]) by {
                assert(out@.subrange(JUMP_BYTES + 8 * k, JUMP_BYTES + 8 * k + 8) =~= tables.subrange(
                    JUMP_BYTES + 8 * k,
                    JUMP_BYTES + 8 * k + 8,
                ));
            }
        }
        out
    }
}


/// Loading the image of a store gives the store back: the same arena, jump
/// table and metadata, so every slot reads the same card, with the free
/// pointer restored to the largest end among the live coordinates.
pub proof fn lemma_image_round_trip(m: StoreModel, img: Seq<u8>, loaded: StoreModel)
    requires
        m.wf(),
        is_image_of(img, m),
        decoded_tables(img, loaded),
    ensures
        loaded.arena == m.arena,
        loaded.jump_table == m.jump_table,
        loaded.metadata == m.metadata,
        loaded.free_pointer == restored_tail(m.jump_table, MAX_ITEMS as int),
        forall|id: int| #[trigger] loaded.article(id) == m.article(id),
{
    vstd::bytes::lemma_auto_spec_u64_to_from_le_bytes();
    vstd::bytes::lemma_auto_spec_u32_to_from_le_bytes();
    assert forall|k: int| 0 <= k < MAX_ITEMS implies loaded.jump_table[k] == m.jump_table[k] by {
        assert(img.subrange(8 * k, 8 * k + 8) == spec_u64_to_le_bytes(m.jump_table[k]));
    }
    assert(loaded.jump_table =~= m.jump_table);
    assert forall|k: int| 0 <= k < MAX_ITEMS implies loaded.metadata[k] == m.metadata[k] by {
        let b = img.subrange(JUMP_BYTES + 8 * k, JUMP_BYTES + 8 * k + 8);
        assert(b == row_bytes(m.metadata[k]));
        assert(b.subrange(0, 4) =~= spec_u32_to_le_bytes(m.metadata[k].timestamp));
    }
    assert(loaded.metadata =~= m.metadata);
}


proof fn lemma_restored_tail_bounds(jump: Seq<u64>, n: int)
    requires
        0 <= n <= jump.len(),
    ensures
        forall|k: int|
            0 <= k < n && #[trigger] jump[k] != 0 ==> wrapping_tail(
                spec_offset(jump[k]),
                spec_len(jump[k]),
            ) <= restored_tail(jump, n),
    decreases n,
{
    if n > 0 {
        lemma_restored_tail_bounds(jump, n - 1);
    }
}

/// A loaded store keeps its cards below the restored free pointer, so the
/// next save overwrites no live card, where no live coordinate's end
/// overflows 32 bits.
pub proof fn lemma_loaded_cards_below_free(img: Seq<u8>, loaded: StoreModel)
    requires
        decoded_tables(img, loaded),
        forall|k: int|
            0 <= k < MAX_ITEMS && #[trigger] loaded.jump_table[k] != 0 ==> spec_offset(
                loaded.jump_table[k],
            ) + spec_len(loaded.jump_table[k]) < 0x1_0000_0000,
    ensures
        loaded.cards_below_free(),
{
    lemma_restored_tail_bounds(loaded.jump_table, MAX_ITEMS as int);
}

} // verus!
