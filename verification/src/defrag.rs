//! Compaction of the arena: the live cards are copied, in slot order, to the
//! front of a fresh tape, and their coordinates rewritten.

use crate::layout::{
    lemma_pack_unpack, lemma_unpack_pack, pack_coordinates, spec_len, spec_offset, spec_pack, unpack_coordinates,
    ARENA_SIZE, MAX_ITEMS,
};
use crate::store::{write_bytes, PlatoStore, StoreModel};
use vstd::prelude::*;

verus! {

/// Why a compaction stopped.
#[derive(Clone, Copy, Debug, PartialEq, Eq, Structural)]
pub enum DefragError {
    /// A live coordinate reaches past the arena, or the compacted tape
    /// would.
    BoundaryCorruption,
}

/// The state of a compaction after the first `n` slots: the jump table as
/// rewritten so far, the new tape, the cursor on it, and whether it stopped.
pub struct DefragState {
    pub jump_table: Seq<u64>,
    pub tape: Seq<u8>,
    pub cursor: u32,
    pub failed: bool,
}

/// The total length of the non-empty coordinates among the first `n` slots.
pub open spec fn live_length(jump: Seq<u64>, n: int) -> int
    decreases n,
{
    if n <= 0 {
        0
    } else if jump[n - 1] != 0 {
        live_length(jump, n - 1) + spec_len(jump[n - 1])
    } else {
        live_length(jump, n - 1)
    }
}

/// The compaction of `m` after its first `n` slots.
pub open spec fn defrag_state(m: StoreModel, n: int) -> DefragState
    decreases n,
{
    if n <= 0 {
        DefragState {
            jump_table: m.jump_table,
            tape: Seq::new(ARENA_SIZE as nat, |i: int| 0u8),
            cursor: 0,
            failed: false,
        }
    } else {
        let st = defrag_state(m, n - 1);
        let p = m.jump_table[n - 1];
        if st.failed || p == 0 {
            st
        } else if spec_offset(p) + spec_len(p) > ARENA_SIZE || st.cursor + spec_len(p)
            > ARENA_SIZE {
            DefragState { failed: true, ..st }
        } else {
            DefragState {
                jump_table: st.jump_table.update(n - 1, spec_pack(st.cursor, spec_len(p))),
                tape: write_bytes(
                    st.tape,
                    st.cursor as int,
                    m.arena.subrange(spec_offset(p) as int, spec_offset(p) + spec_len(p)),
                ),
                cursor: (st.cursor + spec_len(p)) as u32,
                failed: false,
            }
        }
    }
}

/// The store after a compaction of `m`. When it stops early, the
/// coordinates of the slots before the one that stopped it have already been
/// rewritten while the arena and the free pointer are left as they were.
pub open spec fn defragmented(m: StoreModel) -> StoreModel {
    let st = defrag_state(m, MAX_ITEMS as int);
    if st.failed {
        StoreModel { jump_table: st.jump_table, ..m }
    } else {
        StoreModel {
            arena: st.tape,
            free_pointer: st.cursor,
            jump_table: st.jump_table,
            metadata: m.metadata,
        }
    }
}

/// Slot `k`'s coordinate in a compaction state `st` of `m`: still empty if
/// it was empty, else pointing at a copy of its card on the new tape, before
/// the cursor.
pub open spec fn slot_relocated(m: StoreModel, st: DefragState, k: int) -> bool {
    let p = m.jump_table[k];
    let q = st.jump_table[k];
    &&& (p == 0 ==> q == 0)
    &&& (p != 0 ==> {
        &&& spec_offset(p) + spec_len(p) <= ARENA_SIZE
        &&& spec_len(q) == spec_len(p)
        &&& spec_offset(q) + spec_len(q) <= st.cursor
        &&& q == spec_pack(spec_offset(q), spec_len(q))
        &&& st.tape.subrange(spec_offset(q) as int, spec_offset(q) + spec_len(q))
            == m.arena.subrange(spec_offset(p) as int, spec_offset(p) + spec_len(p))
    })
}

/// What holds of a compaction that has not stopped after `n` slots.
pub open spec fn defrag_progress(m: StoreModel, n: int) -> bool {
    let st = defrag_state(m, n);
    &&& st.tape.len() == ARENA_SIZE
    &&& st.cursor <= ARENA_SIZE
    &&& st.cursor == live_length(m.jump_table, n)
    &&& st.jump_table.len() == MAX_ITEMS
    &&& forall|k: int| n <= k < MAX_ITEMS ==> #[trigger] st.jump_table[k] == m.jump_table[k]
    &&& forall|k: int| 0 <= k < n ==> #[trigger] slot_relocated(m, st, k)
}

pub(crate) proof fn lemma_defrag_progress(m: StoreModel, n: int)
    requires
        m.wf(),
        0 <= n <= MAX_ITEMS,
        !defrag_state(m, n).failed,
    ensures
        defrag_progress(m, n),
    decreases n,
{
    if n > 0 {
        let prev = defrag_state(m, n - 1);
        assert(!prev.failed);
        lemma_defrag_progress(m, n - 1);
        let st = defrag_state(m, n);
        let p = m.jump_table[n - 1];
        assert(prev.jump_table[n - 1] == p);
        if p != 0 {
            let c = prev.cursor;
            let l = spec_len(p);
            let o = spec_offset(p);
            let bytes = m.arena.subrange(o as int, o + l);
            lemma_unpack_pack(c, l);
            assert forall|k: int| 0 <= k < n implies #[trigger] slot_relocated(m, st, k) by {
                let pk = m.jump_table[k];
                let q = st.jump_table[k];
                if k < n - 1 {
                    assert(slot_relocated(m, prev, k));
                    assert(q == prev.jump_table[k]);
                    if pk != 0 {
                        let a = spec_offset(q) as int;
                        let b = a + spec_len(q);
                        assert(st.tape.subrange(a, b) =~= prev.tape.subrange(a, b));
                    }
                } else {
                    assert(st.tape.subrange(c as int, c + l) =~= bytes);
                }
            }
            assert forall|k: int| n <= k < MAX_ITEMS implies #[trigger] st.jump_table[k]
                == m.jump_table[k] by {
                assert(prev.jump_table[k] == m.jump_table[k]);
            }
        } else {
            assert forall|k: int| 0 <= k < n implies #[trigger] slot_relocated(m, st, k) by {
                if k < n - 1 {
                    assert(slot_relocated(m, prev, k));
                }
            }
            assert forall|k: int| n <= k < MAX_ITEMS implies #[trigger] st.jump_table[k]
                == m.jump_table[k] by {
                assert(prev.jump_table[k] == m.jump_table[k]);
            }
        }
    }
}

proof fn lemma_defrag_failed_stays(m: StoreModel, n: int, n2: int)
    requires
        0 <= n <= n2,
        defrag_state(m, n).failed,
    ensures
        defrag_state(m, n2) == defrag_state(m, n),
    decreases n2 - n,
{
    if n2 > n {
        lemma_defrag_failed_stays(m, n, n2 - 1);
    }
}

/// Whether a compaction of the coordinates `jump` can succeed: every
/// non-empty coordinate lies within the arena, and the lengths of all of
/// them together fit on it.
pub open spec fn compaction_fits(jump: Seq<u64>) -> bool {
    &&& forall|k: int|
        0 <= k < MAX_ITEMS && #[trigger] jump[k] != 0 ==> spec_offset(jump[k]) + spec_len(jump[k])
            <= ARENA_SIZE
    &&& live_length(jump, MAX_ITEMS as int) <= ARENA_SIZE
}

proof fn lemma_defrag_fails_iff(m: StoreModel, n: int)
    requires
        m.wf(),
        0 <= n <= MAX_ITEMS,
    ensures
        !defrag_state(m, n).failed <==> {
            &&& forall|k: int|
                0 <= k < n && #[trigger] m.jump_table[k] != 0 ==> spec_offset(m.jump_table[k])
                    + spec_len(m.jump_table[k]) <= ARENA_SIZE
            &&& live_length(m.jump_table, n) <= ARENA_SIZE
        },
    decreases n,
{
    if n > 0 {
        lemma_defrag_fails_iff(m, n - 1);
        lemma_live_length_mono(m.jump_table, n - 1, n);
        let prev = defrag_state(m, n - 1);
        if !prev.failed {
            lemma_defrag_progress(m, n - 1);
        }
    }
}

/// A compaction stops with `BoundaryCorruption` exactly when some live
/// coordinate reaches past the arena or the live cards together would not
/// fit on it; on every other store it succeeds.
pub proof fn lemma_defragment_succeeds_iff(m: StoreModel)
    requires
        m.wf(),
    ensures
        !defrag_state(m, MAX_ITEMS as int).failed <==> compaction_fits(m.jump_table),
{
    lemma_defrag_fails_iff(m, MAX_ITEMS as int);
}

impl PlatoStore {
    /// Compacts the arena: copies each live card, in slot order, to the front
    /// of a fresh zeroed tape, rewrites its coordinates, then installs the
    /// tape and sets the free pointer after the last card. Stops with
    /// `BoundaryCorruption` at the first live coordinate that reaches past
    /// the arena or whose card would not fit; the coordinates rewritten
    /// before it stay rewritten.
    pub fn defragment(&mut self) -> (r: Result<(), DefragError>)
        requires
            old(self)@.wf(),
        ensures
            final(self)@.wf(),
            r is Ok <==> !defrag_state(old(self)@, MAX_ITEMS as int).failed,
            r is Ok <==> compaction_fits(old(self)@.jump_table),
            final(self)@ == defragmented(old(self)@),
            r is Ok ==> compacted(final(self)@),
            r is Ok ==> final(self)@.metadata == old(self)@.metadata,
            r is Ok ==> forall|id: int|
                #![trigger final(self)@.article(id)]
                0 <= id < MAX_ITEMS ==> {
                    ||| final(self)@.article(id) == old(self)@.article(id)
                    ||| (old(self)@.article(id) == Some(Seq::<u8>::empty()) && final(self)@.article(
                        id,
                    ) is None)
                },
    {
        let ghost m = self@;
        let mut tape: Vec<u8> = vec![0u8; ARENA_SIZE];
        assert(tape@ =~= Seq::new(ARENA_SIZE as nat, |i: int| 0u8));
        let mut new_offset: u32 = 0;
        let mut id: usize = 0;
        while id < MAX_ITEMS
            invariant
                m.wf(),
                m == old(self)@,
                id <= MAX_ITEMS,
                self.arena@ == m.arena,
                self.metadata@ == m.metadata,
                self.free_pointer == m.free_pointer,
                ({
                    let st = defrag_state(m, id as int);
                    &&& !st.failed
                    &&& st.jump_table == self.jump_table@
                    &&& st.tape == tape@
                    &&& st.cursor == new_offset
                }),
            decreases MAX_ITEMS - id,
        {
            proof {
                lemma_defrag_progress(m, id as int);
            }
            let packed = self.jump_table[id];
            if packed != 0 {
                let (old_offset, len) = unpack_coordinates(packed);
                assert(packed == m.jump_table[id as int]);
                if old_offset as u64 + len as u64 > ARENA_SIZE as u64 || new_offset as u64 + len as u64
                    > ARENA_SIZE as u64 {
                    proof {
                        assert(defrag_state(m, id + 1).failed);
                        lemma_defrag_failed_stays(m, id + 1, MAX_ITEMS as int);
                        lemma_defragment_succeeds_iff(m);
                    }
                    return Err(DefragError::BoundaryCorruption);
                }
                let ghost before = tape@;
                let mut i: usize = 0;
                while i < len as usize
                    invariant
                        m.wf(),
                        self.arena@ == m.arena,
                        old_offset + len <= ARENA_SIZE,
                        new_offset + len <= ARENA_SIZE,
                        i <= len,
                        tape@.len() == ARENA_SIZE,
                        before.len() == ARENA_SIZE,
                        forall|k: int| 0 <= k < new_offset ==> tape@[k] == before[k],
                        forall|k: int|
                            new_offset <= k < new_offset + i ==> #[trigger] tape@[k] == m.arena[k
                                - new_offset + old_offset],
                        forall|k: int| new_offset + i <= k < ARENA_SIZE ==> tape@[k] == before[k],
                    decreases len - i,
                {
                    tape.set(new_offset as usize + i, self.arena[old_offset as usize + i]);
                    i = i + 1;
                }
                assert(tape@ =~= write_bytes(
                    before,
                    new_offset as int,
                    m.arena.subrange(old_offset as int, old_offset + len),
                ));
                let new_packed = pack_coordinates(new_offset, len);
                self.jump_table.set(id, new_packed);
                new_offset = new_offset + len;
            }
            id = id + 1;
        }
        proof {
            lemma_defrag_progress(m, MAX_ITEMS as int);
            lemma_defragment_succeeds_iff(m);
            lemma_defragment_compacts(m);
            lemma_defragment_preserves_cards(m);
        }
        self.arena = tape;
        self.free_pointer = new_offset;
        Ok(())
    }
}

/// A successful compaction keeps every card readable with the same bytes
/// (a zero-length card that lands at offset 0 packs to the empty coordinate
/// and its slot reads as empty), moves the free pointer to the total length
/// of the live cards, and leaves the metadata as it was.
pub proof fn lemma_defragment_preserves_cards(m: StoreModel)
    requires
        m.wf(),
        !defrag_state(m, MAX_ITEMS as int).failed,
    ensures
        defragmented(m).wf(),
        defragmented(m).metadata == m.metadata,
        defragmented(m).free_pointer == live_length(m.jump_table, MAX_ITEMS as int),
        forall|id: int|
            #![trigger defragmented(m).article(id)]
            0 <= id < MAX_ITEMS ==> {
                ||| defragmented(m).article(id) == m.article(id)
                ||| (m.article(id) == Some(Seq::<u8>::empty()) && defragmented(m).article(id) is None)
            },
        forall|id: int|
            #![trigger m.article(id)]
            0 <= id < MAX_ITEMS && m.article(id) is None ==> defragmented(m).article(id) is None,
{
    lemma_defrag_progress(m, MAX_ITEMS as int);
    let st = defrag_state(m, MAX_ITEMS as int);
    assert forall|id: int| 0 <= id < MAX_ITEMS implies {
        ||| defragmented(m).article(id) == m.article(id)
        ||| (m.article(id) == Some(Seq::<u8>::empty()) && defragmented(m).article(id) is None)
    } by {
        let p = m.jump_table[id];
        let q = st.jump_table[id];
        assert(slot_relocated(m, st, id));
        if p != 0 && q == 0 {
            assert(spec_len(q) == 0);
            assert(m.arena.subrange(spec_offset(p) as int, spec_offset(p) + spec_len(p)) =~= Seq::<
                u8,
            >::empty());
        }
    }
}


/// A compacted store: each armed slot's card starts where the cards of the
/// slots before it end, the free pointer is the total length of the cards,
/// and the arena is zero past it.
pub open spec fn compacted(m: StoreModel) -> bool {
    &&& m.wf()
    &&& m.free_pointer <= ARENA_SIZE
    &&& m.free_pointer == live_length(m.jump_table, MAX_ITEMS as int)
    &&& forall|k: int|
        0 <= k < MAX_ITEMS && #[trigger] m.jump_table[k] != 0 ==> spec_offset(m.jump_table[k])
            == live_length(m.jump_table, k)
    &&& forall|i: int| m.free_pointer <= i < ARENA_SIZE ==> #[trigger] m.arena[i] == 0
}

proof fn lemma_live_length_prefix(a: Seq<u64>, b: Seq<u64>, k: int)
    requires
        0 <= k <= a.len(),
        k <= b.len(),
        forall|i: int| 0 <= i < k ==> a[i] == b[i],
    ensures
        live_length(a, k) == live_length(b, k),
    decreases k,
{
    if k > 0 {
        lemma_live_length_prefix(a, b, k - 1);
    }
}

proof fn lemma_live_length_mono(j: Seq<u64>, a: int, b: int)
    requires
        0 <= a <= b,
    ensures
        0 <= live_length(j, a) <= live_length(j, b),
    decreases b,
{
    if b > a {
        lemma_live_length_mono(j, a, b - 1);
    } else if a > 0 {
        lemma_live_length_mono(j, 0, a - 1);
    }
}

/// What a compaction that has not stopped after `n` slots has laid out: the
/// rewritten coordinates are contiguous from 0, the cursor is their total
/// length, and the new tape is zero past the cursor.
proof fn lemma_defrag_layout(m: StoreModel, n: int)
    requires
        m.wf(),
        0 <= n <= MAX_ITEMS,
        !defrag_state(m, n).failed,
    ensures
        ({
            let st = defrag_state(m, n);
            &&& st.cursor == live_length(st.jump_table, n)
            &&& forall|k: int|
                0 <= k < n && #[trigger] st.jump_table[k] != 0 ==> spec_offset(st.jump_table[k])
                    == live_length(st.jump_table, k)
            &&& forall|i: int| st.cursor <= i < ARENA_SIZE ==> #[trigger] st.tape[i] == 0
        }),
    decreases n,
{
    lemma_defrag_progress(m, n);
    if n > 0 {
        let prev = defrag_state(m, n - 1);
        assert(!prev.failed);
        lemma_defrag_progress(m, n - 1);
        lemma_defrag_layout(m, n - 1);
        let st = defrag_state(m, n);
        let p = m.jump_table[n - 1];
        assert(prev.jump_table[n - 1] == p);
        lemma_live_length_prefix(st.jump_table, prev.jump_table, n - 1);
        assert forall|k: int|
            0 <= k < n && #[trigger] st.jump_table[k] != 0 implies spec_offset(st.jump_table[k])
            == live_length(st.jump_table, k) by {
            if k < n - 1 {
                lemma_live_length_prefix(st.jump_table, prev.jump_table, k);
            }
        }
        if p != 0 {
            lemma_unpack_pack(prev.cursor, spec_len(p));
        }
    }
}

proof fn lemma_defrag_of_compacted(m: StoreModel, n: int)
    requires
        compacted(m),
        0 <= n <= MAX_ITEMS,
    ensures
        ({
            let st = defrag_state(m, n);
            &&& !st.failed
            &&& st.jump_table == m.jump_table
            &&& st.cursor == live_length(m.jump_table, n)
            &&& st.tape.len() == ARENA_SIZE
            &&& forall|i: int|
                0 <= i < ARENA_SIZE ==> #[trigger] st.tape[i] == (if i < st.cursor {
                    m.arena[i]
                } else {
                    0u8
                })
        }),
    decreases n,
{
    if n > 0 {
        lemma_defrag_of_compacted(m, n - 1);
        let prev = defrag_state(m, n - 1);
        let p = m.jump_table[n - 1];
        if p != 0 {
            let c = prev.cursor;
            let l = spec_len(p);
            lemma_live_length_mono(m.jump_table, n, MAX_ITEMS as int);
            lemma_pack_unpack(p);
            let st = defrag_state(m, n);
            assert(st.jump_table =~= m.jump_table);
        }
    }
}

/// A successful compaction leaves a compacted store.
pub proof fn lemma_defragment_compacts(m: StoreModel)
    requires
        m.wf(),
        !defrag_state(m, MAX_ITEMS as int).failed,
    ensures
        compacted(defragmented(m)),
{
    lemma_defrag_progress(m, MAX_ITEMS as int);
    lemma_defrag_layout(m, MAX_ITEMS as int);
}

/// Compacting a compacted store succeeds and changes nothing.
pub proof fn lemma_defragment_compacted_is_noop(m: StoreModel)
    requires
        compacted(m),
    ensures
        !defrag_state(m, MAX_ITEMS as int).failed,
        defragmented(m) == m,
{
    lemma_defrag_of_compacted(m, MAX_ITEMS as int);
    let st = defrag_state(m, MAX_ITEMS as int);
    assert(st.tape =~= m.arena);
}

/// A second compaction right after a successful one succeeds and leaves the
/// store as the first left it.
pub proof fn lemma_defragment_idempotent(m: StoreModel)
    requires
        m.wf(),
        !defrag_state(m, MAX_ITEMS as int).failed,
    ensures
        !defrag_state(defragmented(m), MAX_ITEMS as int).failed,
        defragmented(defragmented(m)) == defragmented(m),
{
    lemma_defragment_compacts(m);
    lemma_defragment_compacted_is_noop(defragmented(m));
}

} // verus!
