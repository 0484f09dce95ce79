//! The slot store: a jump table of packed coordinates, a metadata row per
//! slot and the arena that holds the compressed cards.

use crate::layout::{
    lemma_unpack_pack, pack_coordinates, spec_len, spec_offset, spec_pack, unpack_coordinates, ARENA_SIZE, MAX_ITEMS,
};
use vstd::prelude::*;

verus! {

/// The metadata of one slot.
#[derive(Clone, Copy, Debug, PartialEq, Eq, Structural)]
pub struct MetadataRow {
    /// Seconds since 1970-01-01 at which the card was saved.
    pub timestamp: u32,
    /// The card's content type.
    pub content_type: u8,
    /// The profile that wrote the card.
    pub author_id: u8,
    /// The profile the card is addressed to.
    pub target_id: u8,
    /// Alignment gap, kept zero.
    pub padding: u8,
}

/// The all-zero metadata row of an empty slot.
pub open spec fn empty_row() -> MetadataRow {
    MetadataRow { timestamp: 0, content_type: 0, author_id: 0, target_id: 0, padding: 0 }
}

impl MetadataRow {
    /// The all-zero row of an empty slot.
    pub fn empty() -> (r: MetadataRow)
        ensures
            r == empty_row(),
    {
        MetadataRow { timestamp: 0, content_type: 0, author_id: 0, target_id: 0, padding: 0 }
    }
}

/// The mathematical state of a store.
pub struct StoreModel {
    pub arena: Seq<u8>,
    pub free_pointer: u32,
    pub jump_table: Seq<u64>,
    pub metadata: Seq<MetadataRow>,
}

/// The bytes that a packed coordinate designates in `arena`: `None` for the
/// empty coordinate 0 and for one that reaches past the arena's end.
pub open spec fn slot_bytes(arena: Seq<u8>, packed: u64) -> Option<Seq<u8>> {
    if packed == 0 {
        None
    } else if spec_offset(packed) + spec_len(packed) <= arena.len() {
        Some(arena.subrange(spec_offset(packed) as int, spec_offset(packed) + spec_len(packed)))
    } else {
        None
    }
}

/// `arena` with `bytes` written over it from index `at`.
pub open spec fn write_bytes(arena: Seq<u8>, at: int, bytes: Seq<u8>) -> Seq<u8> {
    arena.subrange(0, at) + bytes + arena.subrange(at + bytes.len(), arena.len() as int)
}

impl StoreModel {
    /// The tables have their fixed sizes.
    pub open spec fn wf(self) -> bool {
        &&& self.arena.len() == ARENA_SIZE
        &&& self.jump_table.len() == MAX_ITEMS
        &&& self.metadata.len() == MAX_ITEMS
    }

    /// The compressed card that slot `id` holds, if any.
    pub open spec fn article(self, id: int) -> Option<Seq<u8>> {
        if 0 <= id < MAX_ITEMS {
            slot_bytes(self.arena, self.jump_table[id])
        } else {
            None
        }
    }

    /// Whether `len` more bytes fit on the tape after the free pointer.
    pub open spec fn fits(self, len: nat) -> bool {
        self.free_pointer + len <= ARENA_SIZE
    }

    /// The store after `bytes` are appended at the free pointer and slot
    /// `slot` is pointed at them with metadata `row`.
    pub open spec fn with_card(self, slot: int, bytes: Seq<u8>, row: MetadataRow) -> StoreModel {
        StoreModel {
            arena: write_bytes(self.arena, self.free_pointer as int, bytes),
            free_pointer: (self.free_pointer + bytes.len()) as u32,
            jump_table: self.jump_table.update(slot, spec_pack(self.free_pointer, bytes.len() as u32)),
            metadata: self.metadata.update(slot, row),
        }
    }

    /// Every armed slot's card ends at or before the free pointer, so that
    /// appending at the free pointer overwrites no live card.
    pub open spec fn cards_below_free(self) -> bool {
        forall|id: int|
            0 <= id < MAX_ITEMS && #[trigger] self.jump_table[id] != 0 ==> spec_offset(
                self.jump_table[id],
            ) + spec_len(self.jump_table[id]) <= self.free_pointer
    }

    /// The store after slot `slot` is emptied; the arena keeps the bytes.
    pub open spec fn without_card(self, slot: int) -> StoreModel {
        StoreModel {
            arena: self.arena,
            free_pointer: self.free_pointer,
            jump_table: self.jump_table.update(slot, 0),
            metadata: self.metadata.update(slot, empty_row()),
        }
    }
}

/// The store: the jump table of packed (offset, length) coordinates, the
/// metadata zone and the arena, with the arena's free pointer.
pub struct PlatoStore {
    pub arena: Vec<u8>,
    pub free_pointer: u32,
    pub jump_table: Vec<u64>,
    pub metadata: Vec<MetadataRow>,
}

impl View for PlatoStore {
    type V = StoreModel;

    open spec fn view(&self) -> StoreModel {
        StoreModel {
            arena: self.arena@,
            free_pointer: self.free_pointer,
            jump_table: self.jump_table@,
            metadata: self.metadata@,
        }
    }
}

impl PlatoStore {
    /// The empty store: a zeroed arena, no slot in use.
    pub fn new() -> (s: PlatoStore)
        ensures
            s@.wf(),
            s@.free_pointer == 0,
            forall|i: int| 0 <= i < ARENA_SIZE ==> s@.arena[i] == 0,
            forall|i: int| 0 <= i < MAX_ITEMS ==> s@.jump_table[i] == 0,
            forall|i: int| 0 <= i < MAX_ITEMS ==> s@.metadata[i] == empty_row(),
    {
        let arena: Vec<u8> = vec![0u8; ARENA_SIZE];
        let jump_table: Vec<u64> = vec![0u64; MAX_ITEMS];
        let mut metadata: Vec<MetadataRow> = Vec::new();
        let mut i: usize = 0;
        while i < MAX_ITEMS
            invariant
                i <= MAX_ITEMS,
                metadata@.len() == i,
                forall|k: int| 0 <= k < i ==> metadata@[k] == empty_row(),
            decreases MAX_ITEMS - i,
        {
            metadata.push(MetadataRow::empty());
            i = i + 1;
        }
        PlatoStore { arena, free_pointer: 0, jump_table, metadata }
    }

    /// The compressed card of slot `id`: `None` for an id past the table, an
    /// empty slot, or coordinates that reach past the arena.
    pub fn get_article_slice(&self, id: u32) -> (r: Option<&[u8]>)
        requires
            self@.wf(),
        ensures
            r is None <==> self@.article(id as int) is None,
            r matches Some(b) ==> self@.article(id as int) == Some(b@),
    {
        if id as usize >= MAX_ITEMS {
            return None;
        }
        let packed = self.jump_table[id as usize];
        if packed == 0 {
            return None;
        }
        let (offset, len) = unpack_coordinates(packed);
        if offset as usize > ARENA_SIZE || len as usize > ARENA_SIZE - offset as usize {
            return None;
        }
        Some(vstd::slice::slice_subrange(
            self.arena.as_slice(),
            offset as usize,
            offset as usize + len as usize,
        ))
    }

    /// Appends `bytes` at the free pointer and points slot `slot` at them,
    /// with metadata `row`; refuses, changing nothing, when they do not fit.
    pub(crate) fn commit_card(&mut self, slot: usize, bytes: &Vec<u8>, row: MetadataRow) -> (ok: bool)
        requires
            old(self)@.wf(),
            slot < MAX_ITEMS,
        ensures
            final(self)@.wf(),
            ok == old(self)@.fits(bytes@.len()),
            ok ==> final(self)@ == old(self)@.with_card(slot as int, bytes@, row),
            !ok ==> final(self)@ == old(self)@,
    {
        let offset = self.free_pointer;
        let n = bytes.len();
        if offset as usize > ARENA_SIZE || n > ARENA_SIZE - offset as usize {
            return false;
        }
        let ghost before = self.arena@;
        let mut i: usize = 0;
        while i < n
            invariant
                n == bytes@.len(),
                offset + n <= ARENA_SIZE,
                i <= n,
                self.arena@.len() == ARENA_SIZE,
                before.len() == ARENA_SIZE,
                before == old(self).arena@,
                self.jump_table@ == old(self).jump_table@,
                self.metadata@ == old(self).metadata@,
                self.free_pointer == offset,
                offset == old(self).free_pointer,
                self.jump_table@.len() == MAX_ITEMS,
                self.metadata@.len() == MAX_ITEMS,
                slot < MAX_ITEMS,
                forall|k: int| 0 <= k < offset ==> self.arena@[k] == before[k],
                forall|k: int| 0 <= k < i ==> self.arena@[offset + k] == bytes@[k],
                forall|k: int| offset + i <= k < ARENA_SIZE ==> self.arena@[k] == before[k],
            decreases n - i,
        {
            self.arena.set(offset as usize + i, bytes[i]);
            i = i + 1;
        }
        assert(self.arena@ =~= write_bytes(before, offset as int, bytes@));
        self.free_pointer = offset + n as u32;
        let packed = pack_coordinates(offset, n as u32);
        self.jump_table.set(slot, packed);
        self.metadata.set(slot, row);
        true
    }
}


/// The empty store keeps its cards below the free pointer.
pub proof fn lemma_new_cards_below_free(m: StoreModel)
    requires
        m.wf(),
        forall|i: int| 0 <= i < MAX_ITEMS ==> m.jump_table[i] == 0,
    ensures
        m.cards_below_free(),
        forall|id: int| #[trigger] m.article(id) is None,
{
}

/// Appending a non-empty card that fits: the slot reads back exactly the
/// appended bytes.
pub proof fn lemma_with_card_reads_slot(m: StoreModel, slot: int, bytes: Seq<u8>, row: MetadataRow)
    requires
        m.wf(),
        0 <= slot < MAX_ITEMS,
        m.fits(bytes.len()),
        bytes.len() > 0,
    ensures
        m.with_card(slot, bytes, row).article(slot) == Some(bytes),
{
    let f = m.free_pointer as int;
    lemma_unpack_pack(m.free_pointer, bytes.len() as u32);
    assert(m.with_card(slot, bytes, row).arena.subrange(f, f + bytes.len()) =~= bytes);
}

/// Appending a card to a store whose cards lie below its free pointer: the
/// slot reads back the appended bytes (an empty card appended at offset 0
/// packs to the empty coordinate and reads as an empty slot), every other
/// slot reads what it read before, the free pointer moves past the card and
/// the cards stay below it.
pub proof fn lemma_with_card_reads_back(m: StoreModel, slot: int, bytes: Seq<u8>, row: MetadataRow)
    requires
        m.wf(),
        m.cards_below_free(),
        0 <= slot < MAX_ITEMS,
        m.fits(bytes.len()),
    ensures
        m.with_card(slot, bytes, row).wf(),
        m.with_card(slot, bytes, row).cards_below_free(),
        m.with_card(slot, bytes, row).free_pointer == m.free_pointer + bytes.len(),
        m.with_card(slot, bytes, row).metadata[slot] == row,
        m.with_card(slot, bytes, row).article(slot) == Some(bytes) || (bytes.len() == 0
            && m.free_pointer == 0 && m.with_card(slot, bytes, row).article(slot) is None),
        forall|id: int|
            #![trigger m.with_card(slot, bytes, row).article(id)]
            id != slot ==> m.with_card(slot, bytes, row).article(id) == m.article(id),
{
    let n = m.with_card(slot, bytes, row);
    let f = m.free_pointer as int;
    lemma_unpack_pack(m.free_pointer, bytes.len() as u32);
    assert(n.arena.subrange(f, f + bytes.len()) =~= bytes);
    assert forall|id: int| id != slot implies #[trigger] n.article(id) == m.article(id) by {
        if 0 <= id < MAX_ITEMS && m.jump_table[id] != 0 {
            let p = m.jump_table[id];
            let a = spec_offset(p) as int;
            let b = a + spec_len(p);
            assert(n.arena.subrange(a, b) =~= m.arena.subrange(a, b));
        }
    }
}

/// Emptying a slot: it reads as empty, every other slot reads what it read
/// before, and the cards stay below the unchanged free pointer.
pub proof fn lemma_without_card_reads_empty(m: StoreModel, slot: int)
    requires
        m.wf(),
        0 <= slot < MAX_ITEMS,
    ensures
        m.without_card(slot).wf(),
        m.without_card(slot).article(slot) is None,
        m.cards_below_free() ==> m.without_card(slot).cards_below_free(),
        forall|id: int|
            #![trigger m.without_card(slot).article(id)]
            id != slot ==> m.without_card(slot).article(id) == m.article(id),
{
}

} // verus!
