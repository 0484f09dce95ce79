//! Read-only views of the store: the list of armed slots and the integer
//! metrics of the arena and the index.

use crate::defrag::{
    defrag_state, defragmented, lemma_defrag_progress, live_length, slot_relocated,
};
use crate::layout::{
    lemma_pack_zero, lemma_unpack_pack, spec_len, spec_offset, spec_pack, unpack_coordinates,
    MAX_ITEMS,
};
use crate::codec::string_from_chars;
use crate::store::{MetadataRow, PlatoStore, StoreModel};
use vstd::prelude::*;

verus! {

/// An armed slot, as the administration panel lists it.
#[derive(Clone, Copy, Debug, PartialEq, Eq, Structural)]
pub struct OccupiedSlot {
    pub id: u16,
    pub content_type: u8,
    pub author_id: u8,
    pub target_id: u8,
}

/// The armed slots among the first `n`, in slot order.
pub open spec fn occupied_upto(m: StoreModel, n: int) -> Seq<OccupiedSlot>
    decreases n,
{
    if n <= 0 {
        Seq::empty()
    } else if m.jump_table[n - 1] != 0 {
        occupied_upto(m, n - 1).push(
            OccupiedSlot {
                id: (n - 1) as u16,
                content_type: m.metadata[n - 1].content_type,
                author_id: m.metadata[n - 1].author_id,
                target_id: m.metadata[n - 1].target_id,
            },
        )
    } else {
        occupied_upto(m, n - 1)
    }
}

/// The number of armed slots among the first `n`.
pub open spec fn occupied_count(jump: Seq<u64>, n: int) -> int
    decreases n,
{
    if n <= 0 {
        0
    } else if jump[n - 1] != 0 {
        occupied_count(jump, n - 1) + 1
    } else {
        occupied_count(jump, n - 1)
    }
}

/// The largest end (offset plus length) among the armed slots of the first
/// `n`, or 0: the high-water mark of the live payload.
pub open spec fn max_edge(jump: Seq<u64>, n: int) -> int
    decreases n,
{
    if n <= 0 {
        0
    } else {
        let prev = max_edge(jump, n - 1);
        let p = jump[n - 1];
        if p != 0 && spec_offset(p) + spec_len(p) > prev {
            spec_offset(p) + spec_len(p)
        } else {
            prev
        }
    }
}

/// The integer metrics of the store.
#[derive(Clone, Copy, Debug, PartialEq, Eq, Structural)]
pub struct ArenaMetrics {
    /// The arena's free pointer.
    pub free_pointer: u32,
    /// The number of armed slots.
    pub occupied_slots: u64,
    /// The slots left.
    pub free_slots: u64,
    /// The total length of the live cards.
    pub live_bytes: u64,
    /// The largest end of a live card.
    pub max_physical_edge: u64,
    /// The bytes below the high-water mark that no live card uses (counted
    /// as the mark less the live bytes, or 0).
    pub zombie_bytes: u64,
}

/// The metrics of the store `m`.
pub open spec fn metrics_of(m: StoreModel) -> ArenaMetrics {
    let live = live_length(m.jump_table, MAX_ITEMS as int);
    let edge = max_edge(m.jump_table, MAX_ITEMS as int);
    let count = occupied_count(m.jump_table, MAX_ITEMS as int);
    ArenaMetrics {
        free_pointer: m.free_pointer,
        occupied_slots: count as u64,
        free_slots: (MAX_ITEMS - count) as u64,
        live_bytes: live as u64,
        max_physical_edge: edge as u64,
        zombie_bytes: (if edge > live {
            edge - live
        } else {
            0
        }) as u64,
    }
}

/// The timestamp used as the start of service when slot 0 holds none.
pub const DEFAULT_SERVICE_START: i64 = 1781863800;

/// The start of service: the timestamp of slot 0, or the default.
pub open spec fn service_start(m: StoreModel) -> i64 {
    if m.metadata[0].timestamp != 0 {
        m.metadata[0].timestamp as i64
    } else {
        DEFAULT_SERVICE_START
    }
}

/// `now - start`, saturating at the bounds of `i64`.
pub open spec fn saturating_diff(now: i64, start: i64) -> int {
    let d = now - start;
    if d > i64::MAX {
        i64::MAX as int
    } else if d < i64::MIN {
        i64::MIN as int
    } else {
        d
    }
}

/// Whole days in `d` seconds, rounded toward zero as Rust's `/` does.
pub open spec fn whole_days(d: int) -> int {
    if d >= 0 {
        d / 86400
    } else {
        -((-d) / 86400)
    }
}

/// A gauge of `width` cells, the first `filled` of them full.
pub open spec fn gauge(filled: nat, width: nat) -> Seq<char> {
    Seq::new(width, |i: int| if i < filled { '█' } else { '░' })
}

/// Renders a gauge of `width` cells with the first `filled` full.
pub fn saturation_bar(filled: usize, width: usize) -> (bar: String)
    ensures
        bar@ == gauge(filled as nat, width as nat),
{
    let mut cells: Vec<char> = Vec::new();
    let mut i: usize = 0;
    while i < width
        invariant
            i <= width,
            cells@ == gauge(filled as nat, i as nat),
        decreases width - i,
    {
        if i < filled {
            cells.push('█');
        } else {
            cells.push('░');
        }
        i = i + 1;
        assert(cells@ =~= gauge(filled as nat, i as nat));
    }
    string_from_chars(&cells)
}

/// The listing of the first `n` slots holds each armed slot once, in slot
/// order, with its metadata, and nothing else.
pub proof fn lemma_occupied_slots_listing(m: StoreModel, n: int)
    requires
        m.wf(),
        0 <= n <= MAX_ITEMS,
    ensures
        forall|j: int|
            0 <= j < occupied_upto(m, n).len() ==> {
                let e = #[trigger] occupied_upto(m, n)[j];
                &&& 0 <= e.id < n
                &&& m.jump_table[e.id as int] != 0
                &&& e.content_type == m.metadata[e.id as int].content_type
                &&& e.author_id == m.metadata[e.id as int].author_id
                &&& e.target_id == m.metadata[e.id as int].target_id
            },
        forall|i: int, j: int|
            0 <= i < j < occupied_upto(m, n).len() ==> occupied_upto(m, n)[i].id < occupied_upto(
                m,
                n,
            )[j].id,
        forall|k: int|
            0 <= k < n && #[trigger] m.jump_table[k] != 0 ==> exists|j: int|
                0 <= j < occupied_upto(m, n).len() && occupied_upto(m, n)[j].id == k,
    decreases n,
{
    if n > 0 {
        lemma_occupied_slots_listing(m, n - 1);
        let prev = occupied_upto(m, n - 1);
        let cur = occupied_upto(m, n);
        assert forall|k: int| 0 <= k < n && #[trigger] m.jump_table[k] != 0 implies exists|j: int|
            0 <= j < cur.len() && cur[j].id == k by {
            if k < n - 1 {
                let j = choose|j: int| 0 <= j < prev.len() && prev[j].id == k;
                assert(cur[j] == prev[j]);
            } else {
                assert(cur[cur.len() - 1].id == k);
            }
        }
    }
}

/// The high-water mark of the first `n` slots is at least the end of every
/// armed slot among them, and is the end of one of them, or 0 when none is
/// armed.
pub proof fn lemma_high_water_mark(jump: Seq<u64>, n: int)
    requires
        0 <= n <= jump.len(),
    ensures
        forall|k: int|
            0 <= k < n && #[trigger] jump[k] != 0 ==> spec_offset(jump[k]) + spec_len(jump[k])
                <= max_edge(jump, n),
        (exists|k: int|
            0 <= k < n && #[trigger] jump[k] != 0 && max_edge(jump, n) == spec_offset(jump[k])
                + spec_len(jump[k])) || (max_edge(jump, n) == 0 && forall|k: int|
            0 <= k < n ==> #[trigger] jump[k] == 0),
    decreases n,
{
    if n > 0 {
        lemma_high_water_mark(jump, n - 1);
    }
}

proof fn lemma_occupied_count_bound(jump: Seq<u64>, n: int)
    requires
        0 <= n,
    ensures
        0 <= occupied_count(jump, n) <= n,
    decreases n,
{
    if n > 0 {
        lemma_occupied_count_bound(jump, n - 1);
    }
}

impl PlatoStore {
    /// The armed slots, in slot order, with their metadata.
    pub fn occupied_slots(&self) -> (r: Vec<OccupiedSlot>)
        requires
            self@.wf(),
        ensures
            r@ == occupied_upto(self@, MAX_ITEMS as int),
            forall|j: int|
                0 <= j < r@.len() ==> {
                    let e = #[trigger] r@[j];
                    &&& 0 <= e.id < MAX_ITEMS
                    &&& self@.jump_table[e.id as int] != 0
                    &&& e.content_type == self@.metadata[e.id as int].content_type
                    &&& e.author_id == self@.metadata[e.id as int].author_id
                    &&& e.target_id == self@.metadata[e.id as int].target_id
                },
            forall|i: int, j: int| 0 <= i < j < r@.len() ==> r@[i].id < r@[j].id,
            forall|k: int|
                0 <= k < MAX_ITEMS && #[trigger] self@.jump_table[k] != 0 ==> exists|j: int|
                    0 <= j < r@.len() && r@[j].id == k,
    {
        proof {
            lemma_occupied_slots_listing(self@, MAX_ITEMS as int);
        }
        let mut list: Vec<OccupiedSlot> = Vec::new();
        let mut id: usize = 0;
        while id < MAX_ITEMS
            invariant
                self@.wf(),
                id <= MAX_ITEMS,
                list@ == occupied_upto(self@, id as int),
            decreases MAX_ITEMS - id,
        {
            if self.jump_table[id] != 0 {
                let row = self.metadata[id];
                list.push(
                    OccupiedSlot {
                        id: id as u16,
                        content_type: row.content_type,
                        author_id: row.author_id,
                        target_id: row.target_id,
                    },
                );
            }
            id = id + 1;
        }
        list
    }

    /// The integer metrics of the arena and the index.
    pub fn arena_metrics(&self) -> (r: ArenaMetrics)
        requires
            self@.wf(),
        ensures
            r == metrics_of(self@),
            forall|k: int|
                0 <= k < MAX_ITEMS && #[trigger] self@.jump_table[k] != 0 ==> spec_offset(
                    self@.jump_table[k],
                ) + spec_len(self@.jump_table[k]) <= r.max_physical_edge,
            (exists|k: int|
                0 <= k < MAX_ITEMS && #[trigger] self@.jump_table[k] != 0 && r.max_physical_edge
                    == spec_offset(self@.jump_table[k]) + spec_len(self@.jump_table[k])) || (
            r.max_physical_edge == 0 && forall|k: int|
                0 <= k < MAX_ITEMS ==> #[trigger] self@.jump_table[k] == 0),
            r.zombie_bytes == (if r.max_physical_edge > r.live_bytes {
                r.max_physical_edge - r.live_bytes
            } else {
                0
            }),
            r.occupied_slots + r.free_slots == MAX_ITEMS,
    {
        proof {
            lemma_high_water_mark(self@.jump_table, MAX_ITEMS as int);
            lemma_occupied_count_bound(self@.jump_table, MAX_ITEMS as int);
        }
        let mut live: u64 = 0;
        let mut edge: u64 = 0;
        let mut count: u64 = 0;
        let mut id: usize = 0;
        while id < MAX_ITEMS
            invariant
                self@.wf(),
                id <= MAX_ITEMS,
                live == live_length(self@.jump_table, id as int),
                edge == max_edge(self@.jump_table, id as int),
                count == occupied_count(self@.jump_table, id as int),
                live <= id * 0x1_0000_0000,
                count <= id,
            decreases MAX_ITEMS - id,
        {
            let packed = self.jump_table[id];
            if packed != 0 {
                let (offset, len) = unpack_coordinates(packed);
                count = count + 1;
                live = live + len as u64;
                let e: u64 = offset as u64 + len as u64;
                if e > edge {
                    edge = e;
                }
            }
            id = id + 1;
        }
        let zombie: u64 = if edge > live {
            edge - live
        } else {
            0
        };
        ArenaMetrics {
            free_pointer: self.free_pointer,
            occupied_slots: count,
            free_slots: MAX_ITEMS as u64 - count,
            live_bytes: live,
            max_physical_edge: edge,
            zombie_bytes: zombie,
        }
    }

    /// Whole days of service at time `now`: from the timestamp of slot 0, or
    /// from the default start when slot 0 has none.
    pub fn service_days(&self, now: i64) -> (days: i64)
        requires
            self@.wf(),
        ensures
            days == whole_days(saturating_diff(now, service_start(self@))),
    {
        let ts = self.metadata[0].timestamp;
        let start: i64 = if ts != 0 {
            ts as i64
        } else {
            DEFAULT_SERVICE_START
        };
        let raw: i128 = now as i128 - start as i128;
        let wide: i128 = if raw > i64::MAX as i128 {
            i64::MAX as i128
        } else if raw < i64::MIN as i128 {
            i64::MIN as i128
        } else {
            raw
        };
        let days: i128 = if wide >= 0 {
            wide / 86400
        } else {
            -((-wide) / 86400)
        };
        days as i64
    }
}


proof fn lemma_live_length_same(a: Seq<u64>, b: Seq<u64>, n: int)
    requires
        0 <= n <= a.len(),
        n <= b.len(),
        forall|k: int|
            0 <= k < n ==> (#[trigger] a[k] == 0 ==> b[k] == 0) && (a[k] != 0 ==> spec_len(b[k])
                == spec_len(a[k])),
    ensures
        live_length(a, n) == live_length(b, n),
    decreases n,
{
    if n > 0 {
        lemma_live_length_same(a, b, n - 1);
        assert(a[n - 1] == 0 ==> b[n - 1] == 0);
        assert(spec_len(0) == 0);
    }
}

proof fn lemma_max_edge_bound(j: Seq<u64>, n: int, bound: int)
    requires
        0 <= n <= j.len(),
        0 <= bound,
        forall|k: int|
            0 <= k < n && #[trigger] j[k] != 0 ==> spec_offset(j[k]) + spec_len(j[k]) <= bound,
    ensures
        max_edge(j, n) <= bound,
    decreases n,
{
    if n > 0 {
        lemma_max_edge_bound(j, n - 1, bound);
    }
}

proof fn lemma_counts_bound(j: Seq<u64>, n: int)
    requires
        0 <= n,
    ensures
        0 <= live_length(j, n) <= n * 0x1_0000_0000,
        0 <= occupied_count(j, n) <= n,
    decreases n,
{
    if n > 0 {
        lemma_counts_bound(j, n - 1);
    }
}

proof fn lemma_counts_update(j: Seq<u64>, k: int, v: u64, n: int)
    requires
        0 <= k < j.len(),
        0 <= n <= j.len(),
    ensures
        live_length(j.update(k, v), n) == live_length(j, n) - (if k < n && j[k] != 0 {
            spec_len(j[k]) as int
        } else {
            0
        }) + (if k < n && v != 0 {
            spec_len(v) as int
        } else {
            0
        }),
        occupied_count(j.update(k, v), n) == occupied_count(j, n) - (if k < n && j[k] != 0 {
            1int
        } else {
            0
        }) + (if k < n && v != 0 {
            1int
        } else {
            0
        }),
    decreases n,
{
    if n > 0 {
        lemma_counts_update(j, k, v, n - 1);
    }
}

/// Emptying a slot takes its card's length off the live bytes and one off
/// the armed slots where it held a card, and changes neither where it held
/// none; the free pointer stays.
pub proof fn lemma_metrics_after_delete(m: StoreModel, k: int)
    requires
        m.wf(),
        0 <= k < MAX_ITEMS,
    ensures
        metrics_of(m.without_card(k)).live_bytes + (if m.jump_table[k] != 0 {
            spec_len(m.jump_table[k]) as int
        } else {
            0
        }) == metrics_of(m).live_bytes,
        metrics_of(m.without_card(k)).occupied_slots + (if m.jump_table[k] != 0 {
            1int
        } else {
            0
        }) == metrics_of(m).occupied_slots,
        metrics_of(m.without_card(k)).free_pointer == metrics_of(m).free_pointer,
{
    let n = MAX_ITEMS as int;
    lemma_counts_update(m.jump_table, k, 0, n);
    lemma_counts_bound(m.jump_table, n);
    lemma_counts_bound(m.jump_table.update(k, 0), n);
}

/// Appending a non-empty card that fits and pointing slot `k` at it adds its
/// length to the live bytes, less the length of the card the slot held
/// before, and arms the slot: one more armed slot where it was empty.
pub proof fn lemma_metrics_after_save(m: StoreModel, k: int, bytes: Seq<u8>, row: MetadataRow)
    requires
        m.wf(),
        0 <= k < MAX_ITEMS,
        m.fits(bytes.len()),
        bytes.len() > 0,
    ensures
        metrics_of(m.with_card(k, bytes, row)).live_bytes + (if m.jump_table[k] != 0 {
            spec_len(m.jump_table[k]) as int
        } else {
            0
        }) == metrics_of(m).live_bytes + bytes.len(),
        metrics_of(m.with_card(k, bytes, row)).occupied_slots == metrics_of(m).occupied_slots + (
        if m.jump_table[k] != 0 {
            0int
        } else {
            1
        }),
        metrics_of(m.with_card(k, bytes, row)).free_pointer == m.free_pointer + bytes.len(),
{
    let n = MAX_ITEMS as int;
    let v = spec_pack(m.free_pointer, bytes.len() as u32);
    lemma_pack_zero(m.free_pointer, bytes.len() as u32);
    lemma_unpack_pack(m.free_pointer, bytes.len() as u32);
    lemma_counts_update(m.jump_table, k, v, n);
    lemma_counts_bound(m.jump_table, n);
    lemma_counts_bound(m.jump_table.update(k, v), n);
}

/// A successful compaction leaves no fragmentation: every live card ends
/// at or before the new free pointer, the high-water mark of the live
/// payload does not pass the live bytes, so no zombie bytes are reported,
/// and the free pointer equals the live bytes.
pub proof fn lemma_defragment_leaves_no_zombies(m: StoreModel)
    requires
        m.wf(),
        !defrag_state(m, MAX_ITEMS as int).failed,
    ensures
        defragmented(m).cards_below_free(),
        metrics_of(defragmented(m)).zombie_bytes == 0,
        metrics_of(defragmented(m)).live_bytes == defragmented(m).free_pointer,
{
    lemma_defrag_progress(m, MAX_ITEMS as int);
    let st = defrag_state(m, MAX_ITEMS as int);
    let d = defragmented(m);
    assert forall|k: int| 0 <= k < MAX_ITEMS implies (#[trigger] m.jump_table[k] == 0
        ==> d.jump_table[k] == 0) && (m.jump_table[k] != 0 ==> spec_len(d.jump_table[k]) == spec_len(
        m.jump_table[k],
    )) by {
        assert(slot_relocated(m, st, k));
    }
    lemma_live_length_same(m.jump_table, d.jump_table, MAX_ITEMS as int);
    assert forall|k: int|
        0 <= k < MAX_ITEMS && #[trigger] d.jump_table[k] != 0 implies spec_offset(d.jump_table[k])
        + spec_len(d.jump_table[k]) <= st.cursor by {
        assert(slot_relocated(m, st, k));
    }
    lemma_max_edge_bound(d.jump_table, MAX_ITEMS as int, st.cursor as int);
}

} // verus!
