//! Installation of EPT page tables into a caller-provided buffer: 4-level
//! tables allocated from the start of the buffer, 2 MiB leaves where guest
//! and host addresses and the remaining size allow it, 4 KiB leaves
//! elsewhere.

use vstd::prelude::*;

use crate::bytes::{get_u64, le_u64};
use crate::ept::error::EptPlanError;
use crate::ept::table::{
    permission_bits, ept_2m_entry, ept_4k_entry, ept_permissions, ept_pointer_entry, leaf_2m_entry, leaf_4k_entry, pointer_entry,
    pointer_entry_round_trip, EPT_ADDR_MASK_2M, EPT_ADDR_MASK_4K, EPT_HUGE_2M_SIZE, EPT_LARGE_PAGE, EPT_MEMTYPE_UC,
    EPT_MEMTYPE_WB, EPT_PAGE_SIZE, EPT_TABLE_SIZE,
};
use crate::ept::types::{EptMapping, EptMemoryType, EptPermissions};
use crate::types::{checked_add_u64, ranges_overlap, ranges_overlap_u64, HostPhysAddr};

verus! {

/// Guest addresses a 4-level EPT translates: below 2^48.
pub const EPT_GUEST_LIMIT: u64 = 0x1_0000_0000_0000;

/// Host addresses an EPT entry can hold: below 2^52.
pub const EPT_HOST_LIMIT: u64 = 0x10_0000_0000_0000;

/// Result of installing EPT mappings into a buffer.
#[derive(Clone, Copy, Debug, PartialEq, Eq)]
pub struct EptInstallResult {
    /// HPA of the installed EPT PML4 root.
    pub root_hpa: HostPhysAddr,
    /// Bytes consumed from the install buffer.
    pub bytes_used: usize,
}

/// Allocation state of an EPT hierarchy built in a buffer that the caller
/// passes to each operation.
pub struct EptPageTable {
    buffer_hpa: HostPhysAddr,
    cursor: usize,
    root_offset: Option<usize>,
    /// Index path from the root of each allocated table, by buffer offset.
    paths: Ghost<Map<int, Seq<int>>>,
    /// 2 MiB guest regions (guest address shifted right by 21) that hold a 2 MiB leaf.
    leaves: Ghost<Set<int>>,
    /// Guest pages (guest address shifted right by 12) given a translation:
    /// the host address of the page and the leaf entry that maps it.
    pages: Ghost<Map<int, (int, u64)>>,
}

/// The 64-bit entry `i` of the table at byte offset `t`.
pub open spec fn entry_at(buf: Seq<u8>, t: int, i: int) -> u64 {
    le_u64(buf, t + 8 * i) as u64
}

/// The 2 MiB guest region number an index path of length three designates.
pub open spec fn path_region(p: Seq<int>) -> int {
    p[0] * 0x4_0000 + p[1] * 0x200 + p[2]
}

/// Index path of a guest address: PML4, PDPT and PD indices.
pub open spec fn gpa_path(gpa: u64) -> Seq<int> {
    seq![((gpa >> 39u64) & 0x1ffu64) as int, ((gpa >> 30u64) & 0x1ffu64) as int, ((gpa >> 21u64) & 0x1ffu64) as int]
}

/// Guest range `[base, base + len)` and the 2 MiB region `r` share no address.
pub open spec fn region_disjoint(r: int, base: int, len: int) -> bool {
    !ranges_overlap(r * 0x20_0000, 0x20_0000, base, len)
}

/// The entry grants some access (bits 2:0), so a walk treats it as present.
pub open spec fn entry_present(e: u64) -> bool {
    e & 7u64 != 0
}

/// Buffer offset of the table a non-leaf entry points at.
pub open spec fn entry_child(e: u64, base: u64) -> int {
    (e & EPT_ADDR_MASK_4K) - base
}

/// `e` is a present non-leaf entry pointing at the table at buffer offset `c`.
pub open spec fn points_to(e: u64, base: u64, c: int) -> bool {
    entry_present(e) && e & EPT_LARGE_PAGE == 0 && entry_child(e, base) == c
}

/// Index of `gpa` in the table of the level whose index starts at bit `shift`.
pub open spec fn level_index(gpa: u64, shift: u64) -> int {
    ((gpa >> shift) & 0x1ffu64) as int
}

/// Root entry read for `gpa`.
pub open spec fn walk_e0(buf: Seq<u8>, gpa: u64) -> u64 {
    entry_at(buf, 0, level_index(gpa, 39))
}

/// Page-directory-pointer entry read for `gpa`.
pub open spec fn walk_e1(buf: Seq<u8>, base: u64, gpa: u64) -> u64 {
    entry_at(buf, entry_child(walk_e0(buf, gpa), base), level_index(gpa, 30))
}

/// Page-directory entry read for `gpa`.
pub open spec fn walk_e2(buf: Seq<u8>, base: u64, gpa: u64) -> u64 {
    entry_at(buf, entry_child(walk_e1(buf, base, gpa), base), level_index(gpa, 21))
}

/// Page-table entry read for `gpa`.
pub open spec fn walk_e3(buf: Seq<u8>, base: u64, gpa: u64) -> u64 {
    entry_at(buf, entry_child(walk_e2(buf, base, gpa), base), level_index(gpa, 12))
}

/// What the processor finds for guest address `gpa` in the tables of `buf`,
/// whose first byte is at host address `base` and whose root table is at
/// offset 0: the host address and the leaf entry, or `None` where an entry
/// on the way grants no access.
pub open spec fn ept_walk(buf: Seq<u8>, base: u64, gpa: u64) -> Option<(int, u64)> {
    if !entry_present(walk_e0(buf, gpa)) || !entry_present(walk_e1(buf, base, gpa))
        || !entry_present(walk_e2(buf, base, gpa)) {
        None
    } else if walk_e2(buf, base, gpa) & EPT_LARGE_PAGE != 0 {
        Some(((walk_e2(buf, base, gpa) & EPT_ADDR_MASK_2M) as int + (gpa % 0x20_0000) as int, walk_e2(buf, base, gpa)))
    } else if !entry_present(walk_e3(buf, base, gpa)) {
        None
    } else {
        Some(((walk_e3(buf, base, gpa) & EPT_ADDR_MASK_4K) as int + (gpa % 4096) as int, walk_e3(buf, base, gpa)))
    }
}

/// Buffer offset of the table whose entry a walk for `gpa` reads at level `k`.
pub open spec fn walk_table(buf: Seq<u8>, base: u64, gpa: u64, k: int) -> int {
    if k == 0 {
        0
    } else if k == 1 {
        entry_child(walk_e0(buf, gpa), base)
    } else if k == 2 {
        entry_child(walk_e1(buf, base, gpa), base)
    } else {
        entry_child(walk_e2(buf, base, gpa), base)
    }
}

/// Bit position where the level-`k` index of a guest address starts.
pub open spec fn level_shift(k: int) -> u64 {
    if k == 0 {
        39
    } else if k == 1 {
        30
    } else if k == 2 {
        21
    } else {
        12
    }
}

/// Byte offset of the `k`-th entry a walk for `gpa` reads.
pub open spec fn walk_slot(buf: Seq<u8>, base: u64, gpa: u64, k: int) -> int {
    walk_table(buf, base, gpa, k) + 8 * level_index(gpa, level_shift(k))
}

/// A walk for `gpa` reads its `k`-th entry.
pub open spec fn walk_reads(buf: Seq<u8>, base: u64, gpa: u64, k: int) -> bool {
    ||| k == 0
    ||| k == 1 && entry_present(walk_e0(buf, gpa))
    ||| k == 2 && entry_present(walk_e0(buf, gpa)) && entry_present(walk_e1(buf, base, gpa))
    ||| k == 3 && entry_present(walk_e0(buf, gpa)) && entry_present(walk_e1(buf, base, gpa))
        && entry_present(walk_e2(buf, base, gpa)) && walk_e2(buf, base, gpa) & EPT_LARGE_PAGE == 0
}

/// `[a, a + 8)` lies inside the buffer and outside `[lo, hi)`.
pub open spec fn slot_clear(a: int, len: int, lo: int, hi: int) -> bool {
    0 <= a && a + 8 <= len && (a + 8 <= lo || hi <= a)
}

proof fn lemma_entry_kept(b1: Seq<u8>, b2: Seq<u8>, a: int, lo: int, hi: int)
    requires
        b1.len() == b2.len(),
        slot_clear(a, b1.len() as int, lo, hi),
        forall|j: int| 0 <= j < b1.len() && !(lo <= j < hi) ==> #[trigger] b2[j] == b1[j],
    ensures
        le_u64(b2, a) == le_u64(b1, a),
{
    lemma_entry_unchanged(b1, b2, a, 0);
}

/// A walk reads the same entries, and so finds the same translation, in a
/// buffer that differs from `b1` only in `[lo, hi)` where the walk in `b1`
/// reads nothing there.
proof fn lemma_walk_kept(b1: Seq<u8>, b2: Seq<u8>, base: u64, gpa: u64, lo: int, hi: int)
    requires
        b1.len() == b2.len(),
        forall|j: int| 0 <= j < b1.len() && !(lo <= j < hi) ==> #[trigger] b2[j] == b1[j],
        forall|k: int| 0 <= k < 4 && #[trigger] walk_reads(b1, base, gpa, k) ==> slot_clear(
            walk_slot(b1, base, gpa, k),
            b1.len() as int,
            lo,
            hi,
        ),
    ensures
        ept_walk(b2, base, gpa) == ept_walk(b1, base, gpa),
        forall|k: int| 0 <= k < 4 ==> #[trigger] walk_reads(b2, base, gpa, k) == walk_reads(b1, base, gpa, k)
            && (walk_reads(b1, base, gpa, k) ==> walk_slot(b2, base, gpa, k) == walk_slot(b1, base, gpa, k)),
{
    assert(walk_reads(b1, base, gpa, 0));
    lemma_entry_kept(b1, b2, walk_slot(b1, base, gpa, 0), lo, hi);
    assert(walk_e0(b2, gpa) == walk_e0(b1, gpa));
    if entry_present(walk_e0(b1, gpa)) {
        assert(walk_reads(b1, base, gpa, 1));
        lemma_entry_kept(b1, b2, walk_slot(b1, base, gpa, 1), lo, hi);
        assert(walk_e1(b2, base, gpa) == walk_e1(b1, base, gpa));
        if entry_present(walk_e1(b1, base, gpa)) {
            assert(walk_reads(b1, base, gpa, 2));
            lemma_entry_kept(b1, b2, walk_slot(b1, base, gpa, 2), lo, hi);
            assert(walk_e2(b2, base, gpa) == walk_e2(b1, base, gpa));
            if entry_present(walk_e2(b1, base, gpa)) && walk_e2(b1, base, gpa) & EPT_LARGE_PAGE == 0 {
                assert(walk_reads(b1, base, gpa, 3));
                lemma_entry_kept(b1, b2, walk_slot(b1, base, gpa, 3), lo, hi);
                assert(walk_e3(b2, base, gpa) == walk_e3(b1, base, gpa));
            }
        }
    }
}

impl EptPageTable {
    /// The allocated tables are exactly the 4 KiB blocks below the cursor.
    pub closed spec fn allocated(&self, t: int) -> bool {
        self.paths@.dom().contains(t)
    }

    /// Entry `i` of table `t` is empty, points at the allocated table one
    /// level down, or (in a page directory) is a 2 MiB leaf of a recorded region.
    pub closed spec fn entry_ok(&self, buf: Seq<u8>, t: int, i: int) -> bool {
        let e = entry_at(buf, t, i);
        let child = (e & EPT_ADDR_MASK_4K) - self.buffer_hpa.0;
        ||| e == 0
        ||| (e & EPT_LARGE_PAGE == 0 && e & 7u64 == 7u64 && self.paths@.dom().contains(child) && self.paths@[child]
            == self.paths@[t].push(i))
        ||| (self.paths@[t].len() == 2 && e & EPT_LARGE_PAGE != 0 && self.leaves@.contains(
            path_region(self.paths@[t].push(i)),
        ))
    }

    /// Well-formedness against the buffer contents `buf`.
    pub closed spec fn wf(&self, buf: Seq<u8>) -> bool {
        &&& self.wf_core(buf)
        &&& self.translates(buf)
        &&& self.leaves_recorded(buf)
        &&& match self.root_offset {
            Some(r) => r == 0 && self.paths@.dom().contains(0) && self.paths@[0] == Seq::<int>::empty(),
            None => self.cursor == 0 && self.pages@ == Map::<int, (int, u64)>::empty(),
        }
    }

    /// Every recorded guest page translates, through the tables in `buf`, to
    /// its recorded host address and leaf entry.
    #[verifier::opaque]
    pub closed spec fn translates(&self, buf: Seq<u8>) -> bool {
        forall|p: int| #[trigger] self.pages@.dom().contains(p) ==> 0 <= p < 0x10_0000_0000 && ept_walk(
            buf,
            self.buffer_hpa.0,
            (p * 4096) as u64,
        ) == Some(self.pages@[p])
    }

    /// Every present 4 KiB leaf is the recorded translation of its page.
    #[verifier::opaque]
    pub closed spec fn leaves_recorded(&self, buf: Seq<u8>) -> bool {
        forall|t: int, i: int|
            #![trigger self.paths@[t], entry_at(buf, t, i)]
            self.paths@.dom().contains(t) && self.paths@[t].len() == 3 && 0 <= i < 512 && entry_present(
                entry_at(buf, t, i),
            ) ==> self.pages@.dom().contains(path_region(self.paths@[t]) * 512 + i)
    }

    /// Well-formedness of the tables, whatever the root.
    pub closed spec fn wf_core(&self, buf: Seq<u8>) -> bool {
        &&& self.buffer_hpa.0 % 4096 == 0
        &&& self.buffer_hpa.0 + buf.len() < EPT_HOST_LIMIT
        &&& self.cursor % 4096 == 0
        &&& self.cursor <= buf.len()
        &&& forall|t: int| #[trigger] self.paths@.dom().contains(t) <==> (t % 4096 == 0 && 0 <= t < self.cursor)
        &&& forall|t: int| #[trigger] self.paths@.dom().contains(t) ==> self.paths@[t].len() <= 3
            && forall|k: int| 0 <= k < self.paths@[t].len() ==> 0 <= #[trigger] self.paths@[t][k] < 512
        &&& forall|t: int, i: int|
            #![trigger self.paths@[t], entry_at(buf, t, i)]
            self.paths@.dom().contains(t) && self.paths@[t].len() < 3 && 0 <= i < 512 ==> self.entry_ok(buf, t, i)
    }
}

/// Recorded 4 KiB leaves stay recorded when the tables keep their paths,
/// the recorded pages only grow, and no page-table entry changes.
proof fn lemma_recorded_kept(tbl: EptPageTable, tbl2: EptPageTable, b1: Seq<u8>, b2: Seq<u8>)
    requires
        tbl.leaves_recorded(b1),
        tbl.wf_core(b1),
        tbl2.paths@ == tbl.paths@,
        tbl.pages@.dom().subset_of(tbl2.pages@.dom()),
        b1.len() == b2.len(),
        forall|t: int, i: int|
            #![trigger tbl.paths@[t], entry_at(b2, t, i)]
            tbl.paths@.dom().contains(t) && tbl.paths@[t].len() == 3 && 0 <= i < 512 ==> entry_at(b2, t, i)
                == entry_at(b1, t, i),
    ensures
        tbl2.leaves_recorded(b2),
{
    reveal(EptPageTable::leaves_recorded);
    assert forall|t: int, i: int|
        #![trigger tbl2.paths@[t], entry_at(b2, t, i)]
        tbl2.paths@.dom().contains(t) && tbl2.paths@[t].len() == 3 && 0 <= i < 512 && entry_present(entry_at(b2, t, i))
            implies tbl2.pages@.dom().contains(path_region(tbl2.paths@[t]) * 512 + i) by {
        assert(entry_at(b2, t, i) == entry_at(b1, t, i));
        assert(tbl.pages@.dom().contains(path_region(tbl.paths@[t]) * 512 + i));
    }
}

/// No page table covers an entry of a table higher up.
proof fn lemma_pt_slot_clear(tbl: EptPageTable, buf: Seq<u8>, t: int, i: int)
    requires
        tbl.wf_core(buf),
        tbl.paths@.dom().contains(t),
        tbl.paths@[t].len() < 3,
        0 <= i < 512,
    ensures
        forall|u: int| #[trigger] tbl.paths@.dom().contains(u) && tbl.paths@[u].len() == 3 ==> u + 4096 <= t + 8 * i
            || t + 8 * i + 8 <= u,
{
    assert forall|u: int| #[trigger] tbl.paths@.dom().contains(u) && tbl.paths@[u].len() == 3 implies u + 4096 <= t
        + 8 * i || t + 8 * i + 8 <= u by {
        assert(u != t);
        assert(u % 4096 == 0 && t % 4096 == 0);
    }
}

/// A fresh, zeroed table keeps every recorded 4 KiB leaf recorded.
proof fn lemma_recorded_alloc(tbl: EptPageTable, tbl2: EptPageTable, b1: Seq<u8>, b2: Seq<u8>, off: int, path: Seq<int>)
    requires
        tbl.leaves_recorded(b1),
        tbl.wf_core(b1),
        off == tbl.cursor,
        off + 4096 <= b1.len(),
        b1.len() == b2.len(),
        tbl2.paths@ == tbl.paths@.insert(off, path),
        tbl2.pages@ == tbl.pages@,
        zero_table(b2, off),
        forall|j: int| 0 <= j < b1.len() && !(off <= j < off + 4096) ==> #[trigger] b2[j] == b1[j],
    ensures
        tbl2.leaves_recorded(b2),
{
    reveal(EptPageTable::leaves_recorded);
    assert forall|t: int, i: int|
        #![trigger tbl2.paths@[t], entry_at(b2, t, i)]
        tbl2.paths@.dom().contains(t) && tbl2.paths@[t].len() == 3 && 0 <= i < 512 && entry_present(entry_at(b2, t, i))
            implies tbl2.pages@.dom().contains(path_region(tbl2.paths@[t]) * 512 + i) by {
        if t == off {
            lemma_zero_entry(b2, t, i);
            assert(0u64 & 7u64 == 0) by (bit_vector);
        } else {
            assert(tbl.paths@.dom().contains(t));
            assert(tbl2.paths@[t] == tbl.paths@[t]);
            lemma_entry_unchanged(b1, b2, t, i);
        }
    }
}

/// Writing a 4 KiB leaf for the page of `gpa` into its page table and
/// recording the page keeps every present 4 KiB leaf recorded.
proof fn lemma_recorded_leaf(
    tbl: EptPageTable,
    tbl2: EptPageTable,
    b1: Seq<u8>,
    b2: Seq<u8>,
    t: int,
    i: int,
    gpa: u64,
    e: u64,
)
    requires
        tbl.leaves_recorded(b1),
        tbl.wf_core(b1),
        tbl.paths@.dom().contains(t),
        tbl.paths@[t].len() == 3,
        0 <= i < 512,
        path_region(tbl.paths@[t]) * 512 + i == (gpa >> 12u64) as int,
        tbl2.paths@ == tbl.paths@,
        tbl2.pages@ == page_added(tbl.pages@, gpa, e),
        b1.len() == b2.len(),
        entry_at(b2, t, i) == e,
        forall|j: int| 0 <= j < b1.len() && !(t + 8 * i <= j < t + 8 * i + 8) ==> #[trigger] b2[j] == b1[j],
    ensures
        tbl2.leaves_recorded(b2),
{
    reveal(EptPageTable::leaves_recorded);
    assert forall|u: int, k: int|
        #![trigger tbl2.paths@[u], entry_at(b2, u, k)]
        tbl2.paths@.dom().contains(u) && tbl2.paths@[u].len() == 3 && 0 <= k < 512 && entry_present(entry_at(b2, u, k))
            implies tbl2.pages@.dom().contains(path_region(tbl2.paths@[u]) * 512 + k) by {
        if u != t || k != i {
            assert(u % 4096 == 0 && t % 4096 == 0);
            if u == t {
                assert(k < i || k > i);
            }
            lemma_entry_unchanged(b1, b2, u, k);
        }
    }
}

/// A new table state with no tables keeps nothing to record.
proof fn lemma_recorded_empty(tbl: EptPageTable, buf: Seq<u8>)
    requires
        tbl.paths@ == Map::<int, Seq<int>>::empty(),
    ensures
        tbl.leaves_recorded(buf),
{
    reveal(EptPageTable::leaves_recorded);
}

/// A change of the bytes in `[lo, hi)`, which no page table covers, keeps
/// every page-table entry.
proof fn lemma_pt_entries_kept(tbl: EptPageTable, b1: Seq<u8>, b2: Seq<u8>, lo: int, hi: int)
    requires
        tbl.wf_core(b1),
        b1.len() == b2.len(),
        forall|j: int| 0 <= j < b1.len() && !(lo <= j < hi) ==> #[trigger] b2[j] == b1[j],
        forall|t: int| #[trigger] tbl.paths@.dom().contains(t) && tbl.paths@[t].len() == 3 ==> t + 4096 <= lo || hi <= t,
    ensures
        forall|t: int, i: int|
            #![trigger tbl.paths@[t], entry_at(b2, t, i)]
            tbl.paths@.dom().contains(t) && tbl.paths@[t].len() == 3 && 0 <= i < 512 ==> entry_at(b2, t, i)
                == entry_at(b1, t, i),
{
    assert forall|t: int, i: int|
        #![trigger tbl.paths@[t], entry_at(b2, t, i)]
        tbl.paths@.dom().contains(t) && tbl.paths@[t].len() == 3 && 0 <= i < 512 implies entry_at(b2, t, i)
            == entry_at(b1, t, i) by {
        lemma_entry_unchanged(b1, b2, t, i);
    }
}

/// The tables a walk reads are allocated, and each is the one whose index
/// path is the walked address's path so far; a 2 MiB leaf it meets belongs
/// to a recorded region.
proof fn lemma_walk_tables(tbl: EptPageTable, buf: Seq<u8>, gpa: u64)
    requires
        tbl.wf_core(buf),
        tbl.paths@.dom().contains(0),
        tbl.paths@[0] == Seq::<int>::empty(),
        gpa < EPT_GUEST_LIMIT,
    ensures
        forall|k: int|
            0 <= k < 4 && #[trigger] walk_reads(buf, tbl.buffer_hpa.0, gpa, k) ==> {
                &&& tbl.paths@.dom().contains(walk_table(buf, tbl.buffer_hpa.0, gpa, k))
                &&& tbl.paths@[walk_table(buf, tbl.buffer_hpa.0, gpa, k)] == gpa_path(gpa).take(k)
            },
        entry_present(walk_e0(buf, gpa)) && entry_present(walk_e1(buf, tbl.buffer_hpa.0, gpa))
            && entry_present(walk_e2(buf, tbl.buffer_hpa.0, gpa)) && walk_e2(buf, tbl.buffer_hpa.0, gpa)
            & EPT_LARGE_PAGE != 0 ==> tbl.leaves@.contains((gpa >> 21u64) as int),
{
    let base = tbl.buffer_hpa.0;
    lemma_gpa_region(gpa);
    assert(0u64 & 7u64 == 0) by (bit_vector);
    let i0 = level_index(gpa, 39);
    let i1 = level_index(gpa, 30);
    let i2 = level_index(gpa, 21);
    assert(gpa_path(gpa)[0] == i0 && gpa_path(gpa)[1] == i1 && gpa_path(gpa)[2] == i2);
    assert(gpa_path(gpa).take(0) =~= Seq::<int>::empty());
    assert(tbl.entry_ok(buf, 0, i0));
    let e0 = walk_e0(buf, gpa);
    if entry_present(e0) {
        let t1 = entry_child(e0, base);
        assert(tbl.paths@.dom().contains(t1) && tbl.paths@[t1] == seq![i0]);
        assert(gpa_path(gpa).take(1) =~= seq![i0]);
        assert(tbl.entry_ok(buf, t1, i1));
        let e1 = walk_e1(buf, base, gpa);
        if entry_present(e1) {
            let t2 = entry_child(e1, base);
            assert(tbl.paths@.dom().contains(t2) && tbl.paths@[t2] == seq![i0, i1]);
            assert(gpa_path(gpa).take(2) =~= seq![i0, i1]);
            assert(tbl.entry_ok(buf, t2, i2));
            let e2 = walk_e2(buf, base, gpa);
            if entry_present(e2) {
                if e2 & EPT_LARGE_PAGE != 0 {
                    assert(seq![i0, i1].push(i2) =~= gpa_path(gpa));
                } else {
                    let t3 = entry_child(e2, base);
                    assert(tbl.paths@.dom().contains(t3) && tbl.paths@[t3] == seq![i0, i1].push(i2));
                    assert(gpa_path(gpa).take(3) =~= seq![i0, i1].push(i2));
                }
            }
        }
    }
}

/// Two entries of allocated tables at the same byte offset are the same
/// entry of the same table.
proof fn lemma_slot_eq(t1: int, i1: int, t2: int, i2: int)
    requires
        t1 % 4096 == 0,
        t2 % 4096 == 0,
        0 <= i1 < 512,
        0 <= i2 < 512,
        t1 + 8 * i1 == t2 + 8 * i2,
    ensures
        t1 == t2,
        i1 == i2,
{
    let a = t1 / 4096;
    let b = t2 / 4096;
    assert(t1 == 4096 * a && t2 == 4096 * b);
    assert(4096 * (a - b) == 8 * (i2 - i1)) by (nonlinear_arith)
        requires
            t1 == 4096 * a,
            t2 == 4096 * b,
            t1 + 8 * i1 == t2 + 8 * i2,
    ;
    if a > b {
        assert(4096 * (a - b) >= 4096) by (nonlinear_arith)
            requires
                a - b >= 1,
        ;
    }
    if a < b {
        assert(4096 * (b - a) >= 4096) by (nonlinear_arith)
            requires
                b - a >= 1,
        ;
    }
}

/// Guest addresses below 2^48 with the same four table indices lie in the
/// same 4 KiB page; with the same first three, in the same 2 MiB region.
proof fn lemma_same_indices(x: u64, y: u64)
    requires
        x < EPT_GUEST_LIMIT,
        y < EPT_GUEST_LIMIT,
    ensures
        level_index(x, 39) == level_index(y, 39) && level_index(x, 30) == level_index(y, 30) && level_index(x, 21)
            == level_index(y, 21) ==> x >> 21u64 == y >> 21u64,
        level_index(x, 39) == level_index(y, 39) && level_index(x, 30) == level_index(y, 30) && level_index(x, 21)
            == level_index(y, 21) && level_index(x, 12) == level_index(y, 12) ==> x >> 12u64 == y >> 12u64,
        x >> 21u64 == y >> 21u64 ==> level_index(x, 39) == level_index(y, 39) && level_index(x, 30) == level_index(y, 30)
            && level_index(x, 21) == level_index(y, 21),
        x >> 12u64 == y >> 12u64 ==> x >> 21u64 == y >> 21u64 && level_index(x, 12) == level_index(y, 12),
{
    assert(((x >> 39u64) & 0x1ffu64) == ((y >> 39u64) & 0x1ffu64) && ((x >> 30u64) & 0x1ffu64) == ((y >> 30u64)
        & 0x1ffu64) && ((x >> 21u64) & 0x1ffu64) == ((y >> 21u64) & 0x1ffu64) ==> x >> 21u64 == y >> 21u64)
        by (bit_vector)
        requires
            x < 0x1_0000_0000_0000u64,
            y < 0x1_0000_0000_0000u64,
    ;
    assert(x >> 21u64 == y >> 21u64 && ((x >> 12u64) & 0x1ffu64) == ((y >> 12u64) & 0x1ffu64) ==> x >> 12u64 == y
        >> 12u64) by (bit_vector);
    assert(x >> 21u64 == y >> 21u64 ==> ((x >> 39u64) & 0x1ffu64) == ((y >> 39u64) & 0x1ffu64) && ((x >> 30u64)
        & 0x1ffu64) == ((y >> 30u64) & 0x1ffu64) && ((x >> 21u64) & 0x1ffu64) == ((y >> 21u64) & 0x1ffu64))
        by (bit_vector);
    assert(x >> 12u64 == y >> 12u64 ==> x >> 21u64 == y >> 21u64 && ((x >> 12u64) & 0x1ffu64) == ((y >> 12u64)
        & 0x1ffu64)) by (bit_vector);
}

/// Every entry a successful walk reads is present, and lies inside an
/// allocated table of the buffer.
proof fn lemma_walk_slots(tbl: EptPageTable, buf: Seq<u8>, gpa: u64)
    requires
        tbl.wf_core(buf),
        tbl.paths@.dom().contains(0),
        tbl.paths@[0] == Seq::<int>::empty(),
        gpa < EPT_GUEST_LIMIT,
        ept_walk(buf, tbl.buffer_hpa.0, gpa) is Some,
    ensures
        forall|k: int|
            0 <= k < 4 && #[trigger] walk_reads(buf, tbl.buffer_hpa.0, gpa, k) ==> {
                let t = walk_table(buf, tbl.buffer_hpa.0, gpa, k);
                let a = walk_slot(buf, tbl.buffer_hpa.0, gpa, k);
                &&& tbl.paths@.dom().contains(t)
                &&& tbl.paths@[t] == gpa_path(gpa).take(k)
                &&& t % 4096 == 0 && 0 <= t && t + 4096 <= tbl.cursor
                &&& 0 <= level_index(gpa, level_shift(k)) < 512
                &&& a % 8 == 0 && t <= a && a + 8 <= t + 4096
                &&& entry_present(le_u64(buf, a) as u64)
            },
{
    lemma_walk_tables(tbl, buf, gpa);
    let base = tbl.buffer_hpa.0;
    assert forall|k: int| 0 <= k < 4 && #[trigger] walk_reads(buf, base, gpa, k) implies {
        let t = walk_table(buf, base, gpa, k);
        let a = walk_slot(buf, base, gpa, k);
        &&& tbl.paths@.dom().contains(t)
        &&& tbl.paths@[t] == gpa_path(gpa).take(k)
        &&& t % 4096 == 0 && 0 <= t && t + 4096 <= tbl.cursor
        &&& 0 <= level_index(gpa, level_shift(k)) < 512
        &&& a % 8 == 0 && t <= a && a + 8 <= t + 4096
        &&& entry_present(le_u64(buf, a) as u64)
    } by {
        let sh = level_shift(k);
        assert(((gpa >> sh) & 0x1ffu64) < 512) by (bit_vector);
    }
}

/// A walk that succeeds reads no entry that is not present.
#[verifier::spinoff_prover]
proof fn lemma_walk_avoids_absent_slot(tbl: EptPageTable, buf: Seq<u8>, gpa: u64, w: int)
    requires
        tbl.wf_core(buf),
        tbl.paths@.dom().contains(0),
        tbl.paths@[0] == Seq::<int>::empty(),
        gpa < EPT_GUEST_LIMIT,
        ept_walk(buf, tbl.buffer_hpa.0, gpa) is Some,
        w % 8 == 0,
        0 <= w,
        w + 8 <= buf.len(),
        !entry_present(le_u64(buf, w) as u64),
    ensures
        forall|k: int| 0 <= k < 4 && #[trigger] walk_reads(buf, tbl.buffer_hpa.0, gpa, k) ==> slot_clear(
            walk_slot(buf, tbl.buffer_hpa.0, gpa, k),
            buf.len() as int,
            w,
            w + 8,
        ),
{
    lemma_walk_slots(tbl, buf, gpa);
}

/// A walk that succeeds for an address outside the 4 KiB page of `x` does
/// not read the page-table entry of `x`.
proof fn lemma_walk_avoids_page_slot(tbl: EptPageTable, buf: Seq<u8>, gpa: u64, t: int, x: u64)
    requires
        tbl.wf_core(buf),
        tbl.paths@.dom().contains(0),
        tbl.paths@[0] == Seq::<int>::empty(),
        gpa < EPT_GUEST_LIMIT,
        x < EPT_GUEST_LIMIT,
        ept_walk(buf, tbl.buffer_hpa.0, gpa) is Some,
        tbl.paths@.dom().contains(t),
        tbl.paths@[t] == gpa_path(x),
        gpa >> 12u64 != x >> 12u64,
    ensures
        forall|k: int| 0 <= k < 4 && #[trigger] walk_reads(buf, tbl.buffer_hpa.0, gpa, k) ==> slot_clear(
            walk_slot(buf, tbl.buffer_hpa.0, gpa, k),
            buf.len() as int,
            t + 8 * level_index(x, 12),
            t + 8 * level_index(x, 12) + 8,
        ),
{
    lemma_walk_slots(tbl, buf, gpa);
    lemma_same_indices(gpa, x);
    let base = tbl.buffer_hpa.0;
    let i = level_index(x, 12);
    assert(((x >> 12u64) & 0x1ffu64) < 512) by (bit_vector);
    assert forall|k: int| 0 <= k < 4 && #[trigger] walk_reads(buf, base, gpa, k) implies slot_clear(
        walk_slot(buf, base, gpa, k),
        buf.len() as int,
        t + 8 * i,
        t + 8 * i + 8,
    ) by {
        let tk = walk_table(buf, base, gpa, k);
        let ik = level_index(gpa, level_shift(k));
        if tk + 8 * ik == t + 8 * i {
            lemma_slot_eq(tk, ik, t, i);
            assert(gpa_path(gpa).take(k).len() == gpa_path(x).len());
            assert(k == 3);
            assert(gpa_path(gpa).take(3) =~= gpa_path(gpa));
            assert(gpa_path(gpa)[0] == gpa_path(x)[0] && gpa_path(gpa)[1] == gpa_path(x)[1] && gpa_path(gpa)[2]
                == gpa_path(x)[2]);
        }
    }
}

/// A walk that succeeds for an address outside the 2 MiB region of `x` does
/// not read the page-directory entry of `x`.
proof fn lemma_walk_avoids_region_slot(tbl: EptPageTable, buf: Seq<u8>, gpa: u64, t: int, x: u64)
    requires
        tbl.wf_core(buf),
        tbl.paths@.dom().contains(0),
        tbl.paths@[0] == Seq::<int>::empty(),
        gpa < EPT_GUEST_LIMIT,
        x < EPT_GUEST_LIMIT,
        ept_walk(buf, tbl.buffer_hpa.0, gpa) is Some,
        tbl.paths@.dom().contains(t),
        tbl.paths@[t] == gpa_path(x).take(2),
        gpa >> 21u64 != x >> 21u64,
    ensures
        forall|k: int| 0 <= k < 4 && #[trigger] walk_reads(buf, tbl.buffer_hpa.0, gpa, k) ==> slot_clear(
            walk_slot(buf, tbl.buffer_hpa.0, gpa, k),
            buf.len() as int,
            t + 8 * level_index(x, 21),
            t + 8 * level_index(x, 21) + 8,
        ),
{
    lemma_walk_slots(tbl, buf, gpa);
    lemma_same_indices(gpa, x);
    let base = tbl.buffer_hpa.0;
    let i = level_index(x, 21);
    assert(((x >> 21u64) & 0x1ffu64) < 512) by (bit_vector);
    assert forall|k: int| 0 <= k < 4 && #[trigger] walk_reads(buf, base, gpa, k) implies slot_clear(
        walk_slot(buf, base, gpa, k),
        buf.len() as int,
        t + 8 * i,
        t + 8 * i + 8,
    ) by {
        let tk = walk_table(buf, base, gpa, k);
        let ik = level_index(gpa, level_shift(k));
        if tk + 8 * ik == t + 8 * i {
            lemma_slot_eq(tk, ik, t, i);
            assert(gpa_path(gpa).take(k).len() == gpa_path(x).take(2).len());
            assert(k == 2);
            assert(gpa_path(gpa).take(2)[0] == gpa_path(x).take(2)[0]);
            assert(gpa_path(gpa).take(2)[1] == gpa_path(x).take(2)[1]);
        }
    }
}

/// Recorded translations survive a change of the bytes in `[lo, hi)` that
/// no recorded page's walk reads.
proof fn lemma_translates_kept(tbl: EptPageTable, tbl2: EptPageTable, b1: Seq<u8>, b2: Seq<u8>, lo: int, hi: int)
    requires
        tbl.translates(b1),
        tbl2.pages@ == tbl.pages@,
        tbl2.buffer_hpa == tbl.buffer_hpa,
        b1.len() == b2.len(),
        forall|j: int| 0 <= j < b1.len() && !(lo <= j < hi) ==> #[trigger] b2[j] == b1[j],
        forall|p: int, k: int|
            #![trigger tbl.pages@.dom().contains(p), walk_reads(b1, tbl.buffer_hpa.0, (p * 4096) as u64, k)]
            tbl.pages@.dom().contains(p) && 0 <= k < 4 && walk_reads(b1, tbl.buffer_hpa.0, (p * 4096) as u64, k)
                ==> slot_clear(walk_slot(b1, tbl.buffer_hpa.0, (p * 4096) as u64, k), b1.len() as int, lo, hi),
    ensures
        tbl2.translates(b2),
{
    reveal(EptPageTable::translates);
    assert forall|p: int| #[trigger] tbl2.pages@.dom().contains(p) implies 0 <= p < 0x10_0000_0000 && ept_walk(
        b2,
        tbl2.buffer_hpa.0,
        (p * 4096) as u64,
    ) == Some(tbl2.pages@[p]) by {
        assert(tbl.pages@.dom().contains(p));
        lemma_walk_kept(b1, b2, tbl.buffer_hpa.0, (p * 4096) as u64, lo, hi);
    }
}

/// What `translates` says of one recorded page.
proof fn lemma_translation_of(tbl: EptPageTable, buf: Seq<u8>, p: int)
    requires
        tbl.translates(buf),
        tbl.pages@.dom().contains(p),
    ensures
        0 <= p < 0x10_0000_0000,
        ept_walk(buf, tbl.buffer_hpa.0, (p * 4096) as u64) == Some(tbl.pages@[p]),
{
    reveal(EptPageTable::translates);
}

/// With no recorded pages there is nothing to translate.
proof fn lemma_no_pages_translate(tbl: EptPageTable, buf: Seq<u8>)
    requires
        tbl.pages@ == Map::<int, (int, u64)>::empty(),
    ensures
        tbl.translates(buf),
{
    reveal(EptPageTable::translates);
}

/// Translations depend on the recorded pages and the buffer's host address alone.
proof fn lemma_translates_same(tbl: EptPageTable, tbl2: EptPageTable, buf: Seq<u8>)
    requires
        tbl.translates(buf),
        tbl2.pages@ == tbl.pages@,
        tbl2.buffer_hpa == tbl.buffer_hpa,
    ensures
        tbl2.translates(buf),
{
    reveal(EptPageTable::translates);
}

/// The 4 KiB page of a recorded page number starts below 2^48.
proof fn lemma_page_addr(p: int)
    requires
        0 <= p < 0x10_0000_0000,
    ensures
        (p * 4096) as u64 == p * 4096,
        ((p * 4096) as u64) < EPT_GUEST_LIMIT,
        ((p * 4096) as u64) >> 12u64 == p,
{
    let x = (p * 4096) as u64;
    assert(x == p * 4096);
    assert(x >> 12u64 == x / 4096) by (bit_vector);
}

proof fn lemma_le_u64_bytes(v: u64, b0: u8, b1: u8, b2: u8, b3: u8, b4: u8, b5: u8, b6: u8, b7: u8)
    requires
        b0 == (v & 0xff) as u8,
        b1 == ((v >> 8u64) & 0xff) as u8,
        b2 == ((v >> 16u64) & 0xff) as u8,
        b3 == ((v >> 24u64) & 0xff) as u8,
        b4 == ((v >> 32u64) & 0xff) as u8,
        b5 == ((v >> 40u64) & 0xff) as u8,
        b6 == ((v >> 48u64) & 0xff) as u8,
        b7 == ((v >> 56u64) & 0xff) as u8,
    ensures
        v as int == (b0 + b1 * 0x100) + (b2 + b3 * 0x100) * 0x1_0000 + ((b4 + b5 * 0x100) + (b6 + b7
            * 0x100) * 0x1_0000) * 0x1_0000_0000,
{
    assert(v as int == (b0 + b1 * 0x100) + (b2 + b3 * 0x100) * 0x1_0000 + ((b4 + b5 * 0x100) + (b6 + b7
        * 0x100) * 0x1_0000) * 0x1_0000_0000) by (bit_vector)
        requires
            b0 == (v & 0xff) as u8,
            b1 == ((v >> 8u64) & 0xff) as u8,
            b2 == ((v >> 16u64) & 0xff) as u8,
            b3 == ((v >> 24u64) & 0xff) as u8,
            b4 == ((v >> 32u64) & 0xff) as u8,
            b5 == ((v >> 40u64) & 0xff) as u8,
            b6 == ((v >> 48u64) & 0xff) as u8,
            b7 == ((v >> 56u64) & 0xff) as u8,
    ;
}

/// Writes `v` as eight little-endian bytes at `off`.
fn put_u64(buf: &mut [u8], off: usize, v: u64)
    requires
        off + 8 <= old(buf)@.len(),
    ensures
        final(buf)@.len() == old(buf)@.len(),
        le_u64(final(buf)@, off as int) == v,
        forall|j: int| 0 <= j < old(buf)@.len() && !(off <= j < off + 8) ==> #[trigger] final(buf)@[j] == old(buf)@[j],
{
    let b0 = (v & 0xff) as u8;
    let b1 = ((v >> 8u64) & 0xff) as u8;
    let b2 = ((v >> 16u64) & 0xff) as u8;
    let b3 = ((v >> 24u64) & 0xff) as u8;
    let b4 = ((v >> 32u64) & 0xff) as u8;
    let b5 = ((v >> 40u64) & 0xff) as u8;
    let b6 = ((v >> 48u64) & 0xff) as u8;
    let b7 = ((v >> 56u64) & 0xff) as u8;
    buf[off] = b0;
    buf[off + 1] = b1;
    buf[off + 2] = b2;
    buf[off + 3] = b3;
    buf[off + 4] = b4;
    buf[off + 5] = b5;
    buf[off + 6] = b6;
    buf[off + 7] = b7;
    proof {
        lemma_le_u64_bytes(v, b0, b1, b2, b3, b4, b5, b6, b7);
    }
}

/// The table at `off` (4 KiB) holds only zero bytes.
pub open spec fn zero_table(buf: Seq<u8>, off: int) -> bool {
    forall|j: int| off <= j < off + 4096 ==> #[trigger] buf[j] == 0
}

proof fn lemma_zero_entry(buf: Seq<u8>, off: int, i: int)
    requires
        zero_table(buf, off),
        0 <= i < 512,
        off + 4096 <= buf.len(),
        0 <= off,
    ensures
        entry_at(buf, off, i) == 0,
{
    let b = off + 8 * i;
    assert(buf[b] == 0 && buf[b + 1] == 0 && buf[b + 2] == 0 && buf[b + 3] == 0);
    assert(buf[b + 4] == 0 && buf[b + 5] == 0 && buf[b + 6] == 0 && buf[b + 7] == 0);
}

proof fn lemma_entry_unchanged(old_buf: Seq<u8>, new_buf: Seq<u8>, t: int, i: int)
    requires
        old_buf.len() == new_buf.len(),
        0 <= t + 8 * i,
        t + 8 * i + 8 <= old_buf.len(),
        forall|k: int| t + 8 * i <= k < t + 8 * i + 8 ==> #[trigger] new_buf[k] == old_buf[k],
    ensures
        entry_at(new_buf, t, i) == entry_at(old_buf, t, i),
{
    let b = t + 8 * i;
    assert(new_buf[b] == old_buf[b] && new_buf[b + 1] == old_buf[b + 1] && new_buf[b + 2] == old_buf[b + 2]
        && new_buf[b + 3] == old_buf[b + 3]);
    assert(new_buf[b + 4] == old_buf[b + 4] && new_buf[b + 5] == old_buf[b + 5] && new_buf[b + 6]
        == old_buf[b + 6] && new_buf[b + 7] == old_buf[b + 7]);
}

impl EptPageTable {
    /// An empty hierarchy over a buffer at host address `buffer_hpa`.
    fn new(buffer_hpa: HostPhysAddr) -> (r: Self)
        ensures
            r.buffer_hpa == buffer_hpa,
            r.cursor == 0,
            r.root_offset is None,
            r.paths@ == Map::<int, Seq<int>>::empty(),
            r.leaves@ == Set::<int>::empty(),
            r.pages@ == Map::<int, (int, u64)>::empty(),
    {
        EptPageTable {
            buffer_hpa,
            cursor: 0,
            root_offset: None,
            paths: Ghost(Map::empty()),
            leaves: Ghost(Set::empty()),
            pages: Ghost(Map::empty()),
        }
    }

    /// Allocates and zeroes the next table, recording its index path.
    #[verifier::rlimit(40)]
    fn alloc_table(&mut self, buf: &mut [u8], Ghost(path): Ghost<Seq<int>>) -> (r: Result<(usize, HostPhysAddr), EptPlanError>)
        requires
            old(self).wf_core(old(buf)@),
            old(self).translates(old(buf)@),
            old(self).pages@ == Map::<int, (int, u64)>::empty() || (old(self).paths@.dom().contains(0)
                && old(self).paths@[0] == Seq::<int>::empty()),
            path.len() <= 3,
            forall|k: int| 0 <= k < path.len() ==> 0 <= #[trigger] path[k] < 512,
            old(self).leaves_recorded(old(buf)@),
        ensures
            final(buf)@.len() == old(buf)@.len(),
            final(self).leaves_recorded(final(buf)@),
            final(self).buffer_hpa == old(self).buffer_hpa,
            final(self).root_offset == old(self).root_offset,
            final(self).leaves@ == old(self).leaves@,
            final(self).pages@ == old(self).pages@,
            final(self).wf_core(final(buf)@),
            final(self).translates(final(buf)@),
            old(self).cursor + 4096 > old(buf)@.len() ==> r == Err::<(usize, HostPhysAddr), EptPlanError>(
                EptPlanError::BufferTooSmall,
            ) && *final(self) == *old(self) && final(buf)@ == old(buf)@,
            old(self).cursor + 4096 <= old(buf)@.len() ==> (r matches Ok((off, hpa)) && {
                &&& off == old(self).cursor
                &&& hpa.0 == old(self).buffer_hpa.0 + off
                &&& final(self).cursor == off + 4096
                &&& final(self).paths@ == old(self).paths@.insert(off as int, path)
                &&& zero_table(final(buf)@, off as int)
                &&& forall|j: int| 0 <= j < old(buf)@.len() && !(off <= j < off + 4096) ==> #[trigger] final(buf)@[j] == old(buf)@[j]
            }),
    {
        if buf.len() - self.cursor < EPT_TABLE_SIZE {
            return Err(EptPlanError::BufferTooSmall);
        }
        let offset = self.cursor;
        let ghost old_buf = buf@;
        let ghost old_paths = self.paths@;
        let mut j: usize = offset;
        while j < offset + EPT_TABLE_SIZE
            invariant
                offset <= j <= offset + 4096,
                offset + 4096 <= buf@.len(),
                buf@.len() == old_buf.len(),
                forall|k: int| offset <= k < j ==> #[trigger] buf@[k] == 0,
                forall|k: int| 0 <= k < buf@.len() && !(offset <= k < j) ==> #[trigger] buf@[k] == old_buf[k],
            decreases offset + 4096 - j,
        {
            buf[j] = 0;
            j = j + 1;
        }
        self.cursor = self.cursor + EPT_TABLE_SIZE;
        self.paths = Ghost(self.paths@.insert(offset as int, path));
        let hpa = HostPhysAddr::new(self.buffer_hpa.raw() + offset as u64);
        proof {
            let nb = buf@;
            assert forall|t: int, i: int|
                #![trigger self.paths@[t], entry_at(nb, t, i)]
                self.paths@.dom().contains(t) && self.paths@[t].len() < 3 && 0 <= i < 512 implies self.entry_ok(nb, t, i) by {
                if t == offset {
                    lemma_zero_entry(nb, t, i);
                } else {
                    assert(old_paths.dom().contains(t));
                    assert(old_paths[t] == self.paths@[t]);
                    lemma_entry_unchanged(old_buf, nb, t, i);
                    assert(old(self).entry_ok(old_buf, t, i));
                    let e = entry_at(old_buf, t, i);
                    let child = (e & EPT_ADDR_MASK_4K) - self.buffer_hpa.0;
                    if e != 0 && e & EPT_LARGE_PAGE == 0 && old_paths.dom().contains(child) {
                        assert(self.paths@[child] == old_paths[child]);
                    }
                }
            }
            assert forall|t: int| #[trigger] self.paths@.dom().contains(t) implies self.paths@[t].len() <= 3
                && forall|k: int| 0 <= k < self.paths@[t].len() ==> 0 <= #[trigger] self.paths@[t][k] < 512 by {
                if t != offset {
                    assert(old_paths.dom().contains(t));
                }
            }
            let base = self.buffer_hpa.0;
            assert forall|p: int, k: int|
                #![trigger old(self).pages@.dom().contains(p), walk_reads(old_buf, base, (p * 4096) as u64, k)]
                old(self).pages@.dom().contains(p) && 0 <= k < 4 && walk_reads(old_buf, base, (p * 4096) as u64, k)
                    implies slot_clear(
                    walk_slot(old_buf, base, (p * 4096) as u64, k),
                    old_buf.len() as int,
                    offset as int,
                    offset + 4096,
                ) by {
                lemma_translation_of(*old(self), old_buf, p);
                lemma_page_addr(p);
                lemma_walk_slots(*old(self), old_buf, (p * 4096) as u64);
            }
            lemma_translates_kept(*old(self), *self, old_buf, nb, offset as int, offset + 4096);
            lemma_recorded_alloc(*old(self), *self, old_buf, nb, offset as int, path);
        }
        Ok((offset, hpa))
    }
}

/// Tables below the root that placing a leaf for `gpa` at depth `depth`
/// (2 for a 2 MiB leaf, 3 for a 4 KiB one) still has to allocate: those
/// below the first empty entry on its walk.
pub open spec fn tables_missing(buf: Seq<u8>, base: u64, gpa: u64, depth: int) -> int {
    if walk_e0(buf, gpa) == 0 {
        depth
    } else if walk_e1(buf, base, gpa) == 0 {
        depth - 1
    } else if depth == 3 && walk_e2(buf, base, gpa) == 0 {
        1
    } else {
        0
    }
}

/// What placing a leaf of depth `depth` for `gpa` did, from table state
/// `before` and buffer `b0` to `after` and `b1`: with a root already there,
/// it allocated only the tables missing on the walk; when it succeeded, the
/// walk for `gpa` finds nonzero entries down to the leaf's table; and it
/// succeeded whenever the buffer had room for the missing tables.
#[verifier::opaque]
spec fn leaf_step(
    before: EptPageTable,
    after: EptPageTable,
    b0: Seq<u8>,
    b1: Seq<u8>,
    gpa: u64,
    depth: int,
    ok: bool,
) -> bool {
    &&& before.root_offset is Some ==> after.cursor <= before.cursor + 4096 * tables_missing(
        b0,
        before.buffer_hpa.0,
        gpa,
        depth,
    )
    &&& before.root_offset is Some && before.cursor + 4096 * tables_missing(b0, before.buffer_hpa.0, gpa, depth)
        <= b0.len() ==> ok
    &&& ok ==> after.root_offset is Some && walk_e0(b1, gpa) != 0 && walk_e1(b1, before.buffer_hpa.0, gpa) != 0 && (
    depth == 3 ==> walk_e2(b1, before.buffer_hpa.0, gpa) != 0)
}

/// Bytes that allocating the root table still takes: a table's worth until
/// the root exists, nothing after.
spec fn root_cost(t: EptPageTable) -> int {
    if t.root_offset is None {
        4096
    } else {
        0
    }
}

/// `new` keeps every table of `old` with its path and adds none below `old`'s cursor.
pub open spec fn paths_grow(old_paths: Map<int, Seq<int>>, new_paths: Map<int, Seq<int>>) -> bool {
    forall|t: int| #[trigger] old_paths.dom().contains(t) ==> new_paths.dom().contains(t) && new_paths[t] == old_paths[t]
}

impl EptPageTable {
    fn read_entry(&self, buf: &[u8], table_offset: usize, index: usize) -> (r: u64)
        requires
            table_offset + 8 * index + 8 <= buf@.len(),
        ensures
            r == entry_at(buf@, table_offset as int, index as int),
    {
        let n = buf.len();
        assert(table_offset + 8 * index + 8 <= n);
        get_u64(buf, table_offset + index * 8)
    }

    fn write_entry(&self, buf: &mut [u8], table_offset: usize, index: usize, value: u64)
        requires
            table_offset + 8 * index + 8 <= old(buf)@.len(),
        ensures
            final(buf)@.len() == old(buf)@.len(),
            entry_at(final(buf)@, table_offset as int, index as int) == value,
            forall|j: int|
                0 <= j < old(buf)@.len() && !(table_offset + 8 * index <= j < table_offset + 8 * index + 8)
                    ==> #[trigger] final(buf)@[j] == old(buf)@[j],
    {
        let n = buf.len();
        assert(table_offset + 8 * index + 8 <= n);
        put_u64(buf, table_offset + index * 8, value);
    }

    /// Returns the root table, allocating it first when there is none.
    fn ensure_root(&mut self, buf: &mut [u8]) -> (r: Result<(usize, HostPhysAddr), EptPlanError>)
        requires
            old(self).wf(old(buf)@),
        ensures
            final(buf)@.len() == old(buf)@.len(),
            final(self).wf(final(buf)@),
            final(self).buffer_hpa == old(self).buffer_hpa,
            final(self).leaves@ == old(self).leaves@,
            final(self).pages@ == old(self).pages@,
            paths_grow(old(self).paths@, final(self).paths@),
            old(self).cursor <= final(self).cursor,
            forall|j: int| final(self).cursor <= j < old(buf)@.len() ==> #[trigger] final(buf)@[j] == old(buf)@[j],
            forall|t: int, i: int|
                #![trigger old(self).paths@[t], entry_at(final(buf)@, t, i)]
                old(self).paths@.dom().contains(t) && 0 <= i < 512 ==> entry_at(final(buf)@, t, i) == entry_at(old(buf)@, t, i),
            r matches Ok((off, _)) ==> off == 0 && final(self).root_offset == Some(0usize),
            r is Err ==> r == Err::<(usize, HostPhysAddr), EptPlanError>(EptPlanError::BufferTooSmall),
            final(self).cursor <= old(self).cursor + root_cost(*old(self)),
            r is Err ==> final(self).cursor == old(self).cursor,
            old(self).cursor + root_cost(*old(self)) <= old(buf)@.len() ==> r is Ok,
            old(self).root_offset is Some ==> final(buf)@ == old(buf)@ && final(self).cursor == old(self).cursor,
    {
        if let Some(offset) = self.root_offset {
            return Ok((offset, HostPhysAddr::new(self.buffer_hpa.raw() + offset as u64)));
        }
        let ghost old_buf = buf@;
        let (offset, hpa) = self.alloc_table(buf, Ghost(Seq::<int>::empty()))?;
        let ghost before = *self;
        self.root_offset = Some(offset);
        proof {
            lemma_translates_same(before, *self, buf@);
            lemma_recorded_kept(before, *self, buf@, buf@);
            assert forall|t: int, i: int|
                #![trigger old(self).paths@[t], entry_at(buf@, t, i)]
                old(self).paths@.dom().contains(t) && 0 <= i < 512 implies entry_at(buf@, t, i) == entry_at(old_buf, t, i) by {
                assert(old(self).cursor == 0);
            }
        }
        Ok((offset, hpa))
    }
}

/// Rewriting entry `i` of table `t` with an empty entry or a pointer to an
/// allocated table one level down keeps the tables well formed.
proof fn lemma_entry_write_keeps_wf(tbl: EptPageTable, mid: Seq<u8>, nb: Seq<u8>, t: int, i: int)
    requires
        tbl.wf_core(mid),
        tbl.paths@.dom().contains(t),
        0 <= i < 512,
        nb.len() == mid.len(),
        forall|j: int| 0 <= j < mid.len() && !(t + 8 * i <= j < t + 8 * i + 8) ==> #[trigger] nb[j] == mid[j],
        tbl.paths@[t].len() < 3 ==> tbl.entry_ok(nb, t, i),
    ensures
        tbl.wf_core(nb),
{
    assert forall|u: int, k: int|
        #![trigger tbl.paths@[u], entry_at(nb, u, k)]
        tbl.paths@.dom().contains(u) && tbl.paths@[u].len() < 3 && 0 <= k < 512 implies tbl.entry_ok(nb, u, k) by {
        if u != t || k != i {
            assert(tbl.entry_ok(mid, u, k));
            assert(u % 4096 == 0 && t % 4096 == 0);
            if u == t {
                assert(k < i || k > i);
            }
            lemma_entry_unchanged(mid, nb, u, k);
        }
    }
}

impl EptPageTable {
    /// Returns the child table that entry `index` of table `table_offset`
    /// points at, allocating it and writing the pointer when the entry is empty.
    fn ensure_child(&mut self, buf: &mut [u8], table_offset: usize, index: usize) -> (r: Result<
        (usize, HostPhysAddr),
        EptPlanError,
    >)
        requires
            old(self).wf(old(buf)@),
            old(self).paths@.dom().contains(table_offset as int),
            old(self).paths@[table_offset as int].len() < 3,
            index < 512,
            !(old(self).paths@[table_offset as int].len() == 2 && entry_at(old(buf)@, table_offset as int, index as int)
                & EPT_LARGE_PAGE != 0),
        ensures
            final(buf)@.len() == old(buf)@.len(),
            final(self).wf(final(buf)@),
            final(self).buffer_hpa == old(self).buffer_hpa,
            final(self).root_offset == old(self).root_offset,
            final(self).leaves@ == old(self).leaves@,
            final(self).pages@ == old(self).pages@,
            paths_grow(old(self).paths@, final(self).paths@),
            old(self).cursor <= final(self).cursor,
            forall|j: int| final(self).cursor <= j < old(buf)@.len() ==> #[trigger] final(buf)@[j] == old(buf)@[j],
            r matches Ok((c, _)) ==> final(self).paths@.dom().contains(c as int) && final(self).paths@[c as int]
                == old(self).paths@[table_offset as int].push(index as int),
            r matches Ok((c, _)) ==> points_to(
                entry_at(final(buf)@, table_offset as int, index as int),
                final(self).buffer_hpa.0,
                c as int,
            ),
            forall|j: int|
                0 <= j < old(buf)@.len() && !(table_offset + 8 * index <= j < table_offset + 8 * index + 8) && !(old(
                    self,
                ).cursor <= j < final(self).cursor) ==> #[trigger] final(buf)@[j] == old(buf)@[j],
            r is Err ==> r == Err::<(usize, HostPhysAddr), EptPlanError>(EptPlanError::BufferTooSmall),
            final(self).cursor <= old(self).cursor + 4096,
            old(self).cursor + 4096 <= old(buf)@.len() ==> r is Ok,
            entry_at(old(buf)@, table_offset as int, index as int) != 0 ==> r is Ok && final(self).cursor == old(
                self,
            ).cursor && final(buf)@ == old(buf)@,
    {
        let ghost t = table_offset as int;
        let ghost i = index as int;
        proof {
            assert(old(self).entry_ok(old(buf)@, t, i));
        }
        let existing = self.read_entry(buf, table_offset, index);
        if existing != 0 {
            let child_hpa = existing & EPT_ADDR_MASK_4K;
            let child_offset = (child_hpa - self.buffer_hpa.raw()) as usize;
            return Ok((child_offset, HostPhysAddr::new(child_hpa)));
        }
        let ghost old_buf = buf@;
        let ghost old_paths = self.paths@;
        let ghost child_path = self.paths@[t].push(i);
        let (child_offset, child_hpa) = self.alloc_table(buf, Ghost(child_path))?;
        let ghost mid_buf = buf@;
        let entry = ept_pointer_entry(child_hpa.raw());
        proof {
            lemma_entry_unchanged(old_buf, mid_buf, t, i);
        }
        self.write_entry(buf, table_offset, index, entry);
        proof {
            pointer_entry_round_trip(child_hpa.0);
            lemma_entry_write_keeps_wf(*self, mid_buf, buf@, t, i);
            let base = self.buffer_hpa.0;
            let w = t + 8 * i;
            assert(0u64 & 7u64 == 0) by (bit_vector);
            assert forall|p: int, k: int|
                #![trigger self.pages@.dom().contains(p), walk_reads(mid_buf, base, (p * 4096) as u64, k)]
                self.pages@.dom().contains(p) && 0 <= k < 4 && walk_reads(mid_buf, base, (p * 4096) as u64, k)
                    implies slot_clear(walk_slot(mid_buf, base, (p * 4096) as u64, k), mid_buf.len() as int, w, w + 8) by {
                lemma_translation_of(*self, mid_buf, p);
                lemma_page_addr(p);
                lemma_walk_avoids_absent_slot(*self, mid_buf, (p * 4096) as u64, w);
            }
            lemma_translates_kept(*self, *self, mid_buf, buf@, w, w + 8);
            lemma_pt_slot_clear(*self, mid_buf, t, i);
            lemma_pt_entries_kept(*self, mid_buf, buf@, w, w + 8);
            lemma_recorded_kept(*self, *self, mid_buf, buf@);
        }
        Ok((child_offset, child_hpa))
    }
}

/// Recording more 2 MiB regions keeps the tables well formed.
proof fn lemma_more_leaves_keeps_wf(tbl: EptPageTable, tbl2: EptPageTable, buf: Seq<u8>)
    requires
        tbl.wf_core(buf),
        tbl2.buffer_hpa == tbl.buffer_hpa,
        tbl2.cursor == tbl.cursor,
        tbl2.paths@ == tbl.paths@,
        tbl.leaves@.subset_of(tbl2.leaves@),
    ensures
        tbl2.wf_core(buf),
{
    assert forall|u: int, k: int|
        #![trigger tbl2.paths@[u], entry_at(buf, u, k)]
        tbl2.paths@.dom().contains(u) && tbl2.paths@[u].len() < 3 && 0 <= k < 512 implies tbl2.entry_ok(buf, u, k) by {
        assert(tbl.entry_ok(buf, u, k));
    }
}

/// The index path of a guest address below 2^48 designates its 2 MiB region.
proof fn lemma_gpa_region(gpa: u64)
    requires
        gpa < EPT_GUEST_LIMIT,
    ensures
        path_region(gpa_path(gpa)) == (gpa >> 21u64) as int,
        gpa_path(gpa)[0] < 512 && gpa_path(gpa)[1] < 512 && gpa_path(gpa)[2] < 512,
{
    let a = (gpa >> 39u64) & 0x1ffu64;
    let b = (gpa >> 30u64) & 0x1ffu64;
    let c = (gpa >> 21u64) & 0x1ffu64;
    assert(a * 0x4_0000 + b * 0x200 + c == gpa >> 21u64 && a < 512 && b < 512 && c < 512) by (bit_vector)
        requires
            gpa < 0x1_0000_0000_0000u64,
            a == (gpa >> 39u64) & 0x1ffu64,
            b == (gpa >> 30u64) & 0x1ffu64,
            c == (gpa >> 21u64) & 0x1ffu64,
    ;
}

/// The recorded pages after writing leaf `e` for the 4 KiB page at `gpa`:
/// the page is added when the leaf grants some access.
pub open spec fn page_added(pages: Map<int, (int, u64)>, gpa: u64, e: u64) -> Map<int, (int, u64)> {
    if entry_present(e) {
        pages.insert((gpa >> 12u64) as int, ((e & EPT_ADDR_MASK_4K) as int, e))
    } else {
        pages
    }
}

/// Every table index of a guest address is below 512.
proof fn lemma_indices_small(gpa: u64)
    ensures
        ((gpa >> 39u64) & 0x1ffu64) < 512,
        ((gpa >> 30u64) & 0x1ffu64) < 512,
        ((gpa >> 21u64) & 0x1ffu64) < 512,
        ((gpa >> 12u64) & 0x1ffu64) < 512,
{
    assert(((gpa >> 39u64) & 0x1ffu64) < 512 && ((gpa >> 30u64) & 0x1ffu64) < 512 && ((gpa >> 21u64) & 0x1ffu64)
        < 512 && ((gpa >> 12u64) & 0x1ffu64) < 512) by (bit_vector);
}

/// A nonzero 4 KiB-aligned offset is at least 4096.
proof fn lemma_aligned_nonzero(t: int)
    requires
        t % 4096 == 0,
        t != 0,
        t >= 0,
    ensures
        t >= 4096,
{
}

/// Entries of two different allocated tables occupy disjoint bytes.
proof fn lemma_slot_disjoint(t: int, i: int, u: int, k: int)
    requires
        t % 4096 == 0,
        u % 4096 == 0,
        0 <= i < 512,
        0 <= k < 512,
        t != u,
    ensures
        t + 8 * i + 8 <= u + 8 * k || u + 8 * k + 8 <= t + 8 * i,
{
    let a = t / 4096;
    let b = u / 4096;
    assert(t == 4096 * a && u == 4096 * b);
    if a < b {
        assert(4096 * a + 4096 <= 4096 * b) by (nonlinear_arith)
            requires
                a < b,
        ;
    } else {
        assert(4096 * b + 4096 <= 4096 * a) by (nonlinear_arith)
            requires
                b < a,
        ;
    }
}

/// The page number of a 4 KiB-aligned address below 2^48, times 4096, is the address.
proof fn lemma_page_of(gpa: u64)
    requires
        gpa < EPT_GUEST_LIMIT,
        gpa % 4096 == 0,
    ensures
        0 <= (gpa >> 12u64) < 0x10_0000_0000,
        (((gpa >> 12u64) as int) * 4096) as u64 == gpa,
{
    assert((gpa >> 12u64) < 0x10_0000_0000 && (gpa >> 12u64) * 4096 == gpa) by (bit_vector)
        requires
            gpa < 0x1_0000_0000_0000u64,
            gpa % 4096 == 0,
    ;
}

/// The recorded pages after writing 2 MiB leaf `e` for the region of `gpa`:
/// every page of the region is added when the leaf grants some access.
pub open spec fn region_added(pages: Map<int, (int, u64)>, gpa: u64, e: u64) -> Map<int, (int, u64)> {
    if entry_present(e) {
        pages.union_prefer_right(
            Map::new(
                |q: int| 0 <= q < 0x10_0000_0000 && ((q * 4096) as u64) >> 21u64 == gpa >> 21u64,
                |q: int| ((e & EPT_ADDR_MASK_2M) as int + (q * 4096) % 0x20_0000, e),
            ),
        )
    } else {
        pages
    }
}

/// A walk that meets pointers to `t1` and `t2` along the index path of
/// `gpa` and a 2 MiB leaf in the page directory reads that leaf.
proof fn lemma_walk_2m(buf: Seq<u8>, base: u64, gpa: u64, t1: int, t2: int)
    requires
        points_to(entry_at(buf, 0, level_index(gpa, 39)), base, t1),
        points_to(entry_at(buf, t1, level_index(gpa, 30)), base, t2),
        entry_at(buf, t2, level_index(gpa, 21)) & EPT_LARGE_PAGE != 0,
    ensures
        ept_walk(buf, base, gpa) == (if entry_present(entry_at(buf, t2, level_index(gpa, 21))) {
            Some(
                (
                    (entry_at(buf, t2, level_index(gpa, 21)) & EPT_ADDR_MASK_2M) as int + (gpa % 0x20_0000) as int,
                    entry_at(buf, t2, level_index(gpa, 21)),
                ),
            )
        } else {
            None
        }),
{
}

/// A present entry is not zero.
proof fn lemma_present_nonzero(e: u64)
    ensures
        entry_present(e) ==> e != 0,
{
    assert(e & 7u64 != 0 ==> e != 0) by (bit_vector);
}

/// Every page of the region of `gpa` walks to the 2 MiB leaf `e` that the
/// page directory holds for the region.
proof fn lemma_region_walks(buf: Seq<u8>, base: u64, gpa: u64, t1: int, t2: int, e: u64)
    requires
        gpa < EPT_GUEST_LIMIT,
        points_to(entry_at(buf, 0, level_index(gpa, 39)), base, t1),
        points_to(entry_at(buf, t1, level_index(gpa, 30)), base, t2),
        entry_at(buf, t2, level_index(gpa, 21)) == e,
        e & EPT_LARGE_PAGE != 0,
    ensures
        walk_e0(buf, gpa) != 0 && walk_e1(buf, base, gpa) != 0,
        forall|q: int|
            0 <= q < 0x10_0000_0000 && ((q * 4096) as u64) >> 21u64 == gpa >> 21u64 && entry_present(e) ==> #[trigger] ept_walk(
                buf,
                base,
                (q * 4096) as u64,
            ) == Some(((e & EPT_ADDR_MASK_2M) as int + (q * 4096) % 0x20_0000, e)),
{
    lemma_present_nonzero(entry_at(buf, 0, level_index(gpa, 39)));
    lemma_present_nonzero(entry_at(buf, t1, level_index(gpa, 30)));
    assert forall|q: int|
        0 <= q < 0x10_0000_0000 && ((q * 4096) as u64) >> 21u64 == gpa >> 21u64 && entry_present(e) implies #[trigger] ept_walk(
        buf,
        base,
        (q * 4096) as u64,
    ) == Some(((e & EPT_ADDR_MASK_2M) as int + (q * 4096) % 0x20_0000, e)) by {
        lemma_page_addr(q);
        let x = (q * 4096) as u64;
        lemma_same_indices(x, gpa);
        lemma_walk_2m(buf, base, x, t1, t2);
    }
}

/// Writing the page-directory entry of the 2 MiB region of `x` keeps the
/// translations of every recorded page outside that region.
proof fn lemma_region_write_keeps_pages(tbl: EptPageTable, tbl2: EptPageTable, b1: Seq<u8>, b2: Seq<u8>, t: int, x: u64)
    requires
        tbl.wf(b1),
        tbl2.pages@ == tbl.pages@,
        tbl2.buffer_hpa == tbl.buffer_hpa,
        tbl.root_offset is Some,
        x < EPT_GUEST_LIMIT,
        tbl.paths@.dom().contains(t),
        tbl.paths@[t] == gpa_path(x).take(2),
        forall|p: int| #[trigger] tbl.pages@.dom().contains(p) ==> ((p * 4096) as u64) >> 21u64 != x >> 21u64,
        b1.len() == b2.len(),
        forall|j: int|
            0 <= j < b1.len() && !(t + 8 * level_index(x, 21) <= j < t + 8 * level_index(x, 21) + 8) ==> #[trigger] b2[j]
                == b1[j],
    ensures
        tbl2.translates(b2),
{
    let base = tbl.buffer_hpa.0;
    let w = t + 8 * level_index(x, 21);
    assert forall|p: int, k: int|
        #![trigger tbl.pages@.dom().contains(p), walk_reads(b1, base, (p * 4096) as u64, k)]
        tbl.pages@.dom().contains(p) && 0 <= k < 4 && walk_reads(b1, base, (p * 4096) as u64, k) implies slot_clear(
            walk_slot(b1, base, (p * 4096) as u64, k),
            b1.len() as int,
            w,
            w + 8,
        ) by {
        lemma_translation_of(tbl, b1, p);
        lemma_page_addr(p);
        lemma_walk_avoids_region_slot(tbl, b1, (p * 4096) as u64, t, x);
    }
    lemma_translates_kept(tbl, tbl2, b1, b2, w, w + 8);
}

/// Recording the pages of the region of `gpa` with a present 2 MiB leaf
/// keeps translations when the walk for each of them finds that leaf.
proof fn lemma_add_region_translates(tbl: EptPageTable, tbl2: EptPageTable, buf: Seq<u8>, gpa: u64, e: u64)
    requires
        tbl.translates(buf),
        tbl2.buffer_hpa == tbl.buffer_hpa,
        tbl2.pages@ == region_added(tbl.pages@, gpa, e),
        forall|q: int|
            0 <= q < 0x10_0000_0000 && ((q * 4096) as u64) >> 21u64 == gpa >> 21u64 && entry_present(e) ==> #[trigger] ept_walk(
                buf,
                tbl.buffer_hpa.0,
                (q * 4096) as u64,
            ) == Some(((e & EPT_ADDR_MASK_2M) as int + (q * 4096) % 0x20_0000, e)),
    ensures
        tbl2.translates(buf),
{
    reveal(EptPageTable::translates);
    assert forall|p: int| #[trigger] tbl2.pages@.dom().contains(p) implies 0 <= p < 0x10_0000_0000 && ept_walk(
        buf,
        tbl2.buffer_hpa.0,
        (p * 4096) as u64,
    ) == Some(tbl2.pages@[p]) by {
        if entry_present(e) && 0 <= p < 0x10_0000_0000 && ((p * 4096) as u64) >> 21u64 == gpa >> 21u64 {
            assert(ept_walk(buf, tbl.buffer_hpa.0, (p * 4096) as u64) == Some(
                ((e & EPT_ADDR_MASK_2M) as int + (p * 4096) % 0x20_0000, e),
            ));
        } else {
            assert(tbl.pages@.dom().contains(p));
        }
    }
}

/// Entry `i` of table `t` keeps its value across a change confined to
/// `[lo1, hi1)` and `[lo2, hi2)` when its bytes lie outside both.
proof fn lemma_slot_kept(b1: Seq<u8>, b2: Seq<u8>, t: int, i: int, lo1: int, hi1: int, lo2: int, hi2: int)
    requires
        b1.len() == b2.len(),
        0 <= t + 8 * i,
        t + 8 * i + 8 <= b1.len(),
        t + 8 * i + 8 <= lo1 || hi1 <= t + 8 * i,
        t + 8 * i + 8 <= lo2 || hi2 <= t + 8 * i,
        forall|j: int| 0 <= j < b1.len() && !(lo1 <= j < hi1) && !(lo2 <= j < hi2) ==> #[trigger] b2[j] == b1[j],
    ensures
        entry_at(b2, t, i) == entry_at(b1, t, i),
{
    lemma_entry_unchanged(b1, b2, t, i);
}

/// Writing the page-table entry of the 4 KiB page of `x` keeps the
/// translations of every recorded page other than that page.
proof fn lemma_leaf_write_keeps_pages(tbl: EptPageTable, tbl2: EptPageTable, b1: Seq<u8>, b2: Seq<u8>, t: int, x: u64)
    requires
        tbl.wf(b1),
        tbl2.pages@ == tbl.pages@,
        tbl2.buffer_hpa == tbl.buffer_hpa,
        tbl.root_offset is Some,
        x < EPT_GUEST_LIMIT,
        tbl.paths@.dom().contains(t),
        tbl.paths@[t] == gpa_path(x),
        !tbl.pages@.dom().contains((x >> 12u64) as int),
        b1.len() == b2.len(),
        forall|j: int|
            0 <= j < b1.len() && !(t + 8 * level_index(x, 12) <= j < t + 8 * level_index(x, 12) + 8) ==> #[trigger] b2[j]
                == b1[j],
    ensures
        tbl2.translates(b2),
{
    let base = tbl.buffer_hpa.0;
    let w = t + 8 * level_index(x, 12);
    assert forall|p: int, k: int|
        #![trigger tbl.pages@.dom().contains(p), walk_reads(b1, base, (p * 4096) as u64, k)]
        tbl.pages@.dom().contains(p) && 0 <= k < 4 && walk_reads(b1, base, (p * 4096) as u64, k) implies slot_clear(
            walk_slot(b1, base, (p * 4096) as u64, k),
            b1.len() as int,
            w,
            w + 8,
        ) by {
        lemma_translation_of(tbl, b1, p);
        lemma_page_addr(p);
        lemma_walk_avoids_page_slot(tbl, b1, (p * 4096) as u64, t, x);
    }
    lemma_translates_kept(tbl, tbl2, b1, b2, w, w + 8);
}

/// A walk that meets pointers to `t1`, `t2` and `t3` along the index path
/// of `gpa` reads the page-table entry of `gpa` as its leaf.
proof fn lemma_walk_4k(buf: Seq<u8>, base: u64, gpa: u64, t1: int, t2: int, t3: int)
    requires
        points_to(entry_at(buf, 0, level_index(gpa, 39)), base, t1),
        points_to(entry_at(buf, t1, level_index(gpa, 30)), base, t2),
        points_to(entry_at(buf, t2, level_index(gpa, 21)), base, t3),
    ensures
        walk_e0(buf, gpa) != 0 && walk_e1(buf, base, gpa) != 0 && walk_e2(buf, base, gpa) != 0,
        ept_walk(buf, base, gpa) == (if entry_present(entry_at(buf, t3, level_index(gpa, 12))) {
            Some(
                (
                    (entry_at(buf, t3, level_index(gpa, 12)) & EPT_ADDR_MASK_4K) as int + (gpa % 4096) as int,
                    entry_at(buf, t3, level_index(gpa, 12)),
                ),
            )
        } else {
            None
        }),
{
    lemma_present_nonzero(entry_at(buf, 0, level_index(gpa, 39)));
    lemma_present_nonzero(entry_at(buf, t1, level_index(gpa, 30)));
    lemma_present_nonzero(entry_at(buf, t2, level_index(gpa, 21)));
}

/// Recording the page of `gpa` with a present leaf keeps translations when
/// the walk for `gpa` already finds that leaf.
proof fn lemma_add_page_translates(tbl: EptPageTable, tbl2: EptPageTable, buf: Seq<u8>, gpa: u64, e: u64)
    requires
        tbl.translates(buf),
        tbl2.buffer_hpa == tbl.buffer_hpa,
        tbl2.pages@ == page_added(tbl.pages@, gpa, e),
        0 <= (gpa >> 12u64) < 0x10_0000_0000,
        (((gpa >> 12u64) as int) * 4096) as u64 == gpa,
        entry_present(e) ==> ept_walk(buf, tbl.buffer_hpa.0, gpa) == Some(((e & EPT_ADDR_MASK_4K) as int, e)),
    ensures
        tbl2.translates(buf),
{
    reveal(EptPageTable::translates);
    assert forall|p: int| #[trigger] tbl2.pages@.dom().contains(p) implies 0 <= p < 0x10_0000_0000 && ept_walk(
        buf,
        tbl2.buffer_hpa.0,
        (p * 4096) as u64,
    ) == Some(tbl2.pages@[p]) by {
        if entry_present(e) && p == (gpa >> 12u64) as int {
        } else {
            assert(tbl.pages@.dom().contains(p));
        }
    }
}

impl EptPageTable {
    /// Writes a 2 MiB leaf for guest address `gpa`.
    #[verifier::spinoff_prover]
    #[verifier::rlimit(60)]
    fn map_2m(&mut self, buf: &mut [u8], gpa: u64, hpa: u64, perms: u64, memtype: u64) -> (r: Result<(), EptPlanError>)
        requires
            old(self).wf(old(buf)@),
            gpa < EPT_GUEST_LIMIT,
            gpa % 0x20_0000 == 0,
            forall|p: int| #[trigger] old(self).pages@.dom().contains(p) ==> ((p * 4096) as u64) >> 21u64 != gpa >> 21u64,
        ensures
            final(buf)@.len() == old(buf)@.len(),
            final(self).wf(final(buf)@),
            final(self).buffer_hpa == old(self).buffer_hpa,
            old(self).leaves@.subset_of(final(self).leaves@),
            r is Ok ==> final(self).leaves@ == old(self).leaves@.insert((gpa >> 21u64) as int),
            r is Err ==> final(self).leaves@ == old(self).leaves@,
            final(self).root_offset is Some || r is Err,
            old(self).cursor <= final(self).cursor,
            forall|j: int| final(self).cursor <= j < old(buf)@.len() ==> #[trigger] final(buf)@[j] == old(buf)@[j],
            r is Err ==> r == Err::<(), EptPlanError>(EptPlanError::BufferTooSmall),
            r is Err ==> final(self).pages@ == old(self).pages@,
            r is Ok ==> final(self).pages@ == region_added(old(self).pages@, gpa, leaf_2m_entry(hpa, perms, memtype)),
            final(self).cursor <= old(self).cursor + root_cost(*old(self)) + 2 * 4096,
            old(self).cursor + root_cost(*old(self)) + 2 * 4096 <= old(buf)@.len() ==> r is Ok,
            leaf_step(*old(self), *final(self), old(buf)@, final(buf)@, gpa, 2, r is Ok),
    {
        proof {
            reveal(leaf_step);
            lemma_gpa_region(gpa);
        }
        let (root_offset, _) = self.ensure_root(buf)?;
        let pml4_index = ((gpa >> 39u64) & 0x1FF) as usize;
        let pdpt_index = ((gpa >> 30u64) & 0x1FF) as usize;
        let pd_index = ((gpa >> 21u64) & 0x1FF) as usize;
        proof {
            lemma_indices_small(gpa);
        }
        let ghost base = self.buffer_hpa.0;
        let ghost i0 = pml4_index as int;
        let ghost i1 = pdpt_index as int;
        let ghost i2 = pd_index as int;
        proof {
            assert(self.paths@[0].len() == 0);
        }
        let (pdpt_offset, _) = self.ensure_child(buf, root_offset, pml4_index)?;
        let ghost b1 = buf@;
        let ghost cur1 = self.cursor as int;
        let ghost t1 = pdpt_offset as int;
        proof {
            assert(self.paths@[t1].len() == 1);
            assert(t1 % 4096 == 0 && t1 + 4096 <= cur1);
            lemma_aligned_nonzero(t1);
        }
        let (pd_offset, _) = self.ensure_child(buf, pdpt_offset, pdpt_index)?;
        let ghost b2 = buf@;
        let ghost cur2 = self.cursor as int;
        let ghost t2 = pd_offset as int;
        proof {
            assert(self.paths@[t2].len() == 2);
            assert(t2 % 4096 == 0);
            lemma_aligned_nonzero(t2);
            lemma_slot_disjoint(t1, i1, 0, i0);
            lemma_slot_kept(b1, b2, 0, i0, t1 + 8 * i1, t1 + 8 * i1 + 8, cur1, cur2);
            assert(self.paths@[t2] =~= gpa_path(gpa).take(2));
            assert(self.paths@[t2].push(i2) =~= gpa_path(gpa));
        }
        let ghost before = *self;
        let ghost region = path_region(self.paths@[pd_offset as int].push(pd_index as int));
        self.leaves = Ghost(self.leaves@.insert(region));
        proof {
            lemma_more_leaves_keeps_wf(before, *self, b2);
            lemma_recorded_kept(before, *self, b2, b2);
            lemma_translates_same(before, *self, b2);
        }
        let ghost mid = *self;
        let entry = ept_2m_entry(hpa, perms, memtype);
        proof {
            assert(entry & 0x80u64 != 0) by (bit_vector)
                requires
                    entry == (((hpa & 0x000F_FFFF_FFE0_0000u64) | perms) | (memtype << 3u64)) | 0x80u64,
            ;
        }
        self.write_entry(buf, pd_offset, pd_index, entry);
        proof {
            lemma_entry_write_keeps_wf(*self, b2, buf@, t2, i2);
            let b3 = buf@;
            lemma_pt_slot_clear(*self, b2, t2, i2);
            lemma_pt_entries_kept(*self, b2, b3, t2 + 8 * i2, t2 + 8 * i2 + 8);
            lemma_recorded_kept(*self, *self, b2, b3);
            lemma_slot_disjoint(t2, i2, 0, i0);
            lemma_slot_disjoint(t2, i2, t1, i1);
            lemma_slot_kept(b2, b3, 0, i0, t2 + 8 * i2, t2 + 8 * i2 + 8, 0, 0);
            lemma_slot_kept(b2, b3, t1, i1, t2 + 8 * i2, t2 + 8 * i2 + 8, 0, 0);
            assert(i2 == level_index(gpa, 21));
            assert(entry_at(b3, t2, i2) == entry);
            lemma_region_write_keeps_pages(mid, *self, b2, b3, t2, gpa);
            lemma_region_walks(b3, base, gpa, t1, t2, entry);
        }
        let ghost before2 = *self;
        self.pages = Ghost(region_added(self.pages@, gpa, entry));
        proof {
            lemma_add_region_translates(before2, *self, buf@, gpa, entry);
            assert(before2.pages@.dom().subset_of(self.pages@.dom()));
            lemma_recorded_kept(before2, *self, buf@, buf@);
        }
        Ok(())
    }

    /// Writes a 4 KiB leaf for guest address `gpa`, outside every recorded 2 MiB region.
    #[verifier::spinoff_prover]
    #[verifier::rlimit(100)]
    fn map_4k(&mut self, buf: &mut [u8], gpa: u64, hpa: u64, perms: u64, memtype: u64) -> (r: Result<(), EptPlanError>)
        requires
            old(self).wf(old(buf)@),
            gpa < EPT_GUEST_LIMIT,
            gpa % 4096 == 0,
            !old(self).leaves@.contains((gpa >> 21u64) as int),
            !old(self).pages@.dom().contains((gpa >> 12u64) as int),
        ensures
            final(buf)@.len() == old(buf)@.len(),
            final(self).wf(final(buf)@),
            final(self).buffer_hpa == old(self).buffer_hpa,
            final(self).leaves@ == old(self).leaves@,
            final(self).root_offset is Some || r is Err,
            old(self).cursor <= final(self).cursor,
            forall|j: int| final(self).cursor <= j < old(buf)@.len() ==> #[trigger] final(buf)@[j] == old(buf)@[j],
            r is Err ==> r == Err::<(), EptPlanError>(EptPlanError::BufferTooSmall),
            r is Err ==> final(self).pages@ == old(self).pages@,
            r is Ok ==> final(self).pages@ == page_added(old(self).pages@, gpa, leaf_4k_entry(hpa, perms, memtype)),
            final(self).cursor <= old(self).cursor + root_cost(*old(self)) + 3 * 4096,
            old(self).cursor + root_cost(*old(self)) + 3 * 4096 <= old(buf)@.len() ==> r is Ok,
            leaf_step(*old(self), *final(self), old(buf)@, final(buf)@, gpa, 3, r is Ok),
    {
        proof {
            reveal(leaf_step);
            lemma_gpa_region(gpa);
        }
        let (root_offset, _) = self.ensure_root(buf)?;
        let pml4_index = ((gpa >> 39u64) & 0x1FF) as usize;
        let pdpt_index = ((gpa >> 30u64) & 0x1FF) as usize;
        let pd_index = ((gpa >> 21u64) & 0x1FF) as usize;
        let pt_index = ((gpa >> 12u64) & 0x1FF) as usize;
        proof {
            lemma_indices_small(gpa);
        }
        let ghost base = self.buffer_hpa.0;
        let ghost i0 = pml4_index as int;
        let ghost i1 = pdpt_index as int;
        let ghost i2 = pd_index as int;
        let ghost i3 = pt_index as int;
        let ghost cur0 = self.cursor as int;
        proof {
            assert(self.paths@[0].len() == 0);
        }
        let (pdpt_offset, _) = self.ensure_child(buf, root_offset, pml4_index)?;
        let ghost b1 = buf@;
        let ghost cur1 = self.cursor as int;
        let ghost t1 = pdpt_offset as int;
        proof {
            assert(self.paths@[t1].len() == 1);
            assert(t1 % 4096 == 0 && t1 + 4096 <= cur1);
            lemma_aligned_nonzero(t1);
        }
        let (pd_offset, _) = self.ensure_child(buf, pdpt_offset, pdpt_index)?;
        let ghost b2 = buf@;
        let ghost cur2 = self.cursor as int;
        let ghost t2 = pd_offset as int;
        proof {
            assert(self.paths@[t2].len() == 2);
            assert(t2 % 4096 == 0 && t2 + 4096 <= cur2);
            lemma_aligned_nonzero(t2);
            lemma_slot_disjoint(t1, i1, 0, i0);
            lemma_slot_kept(b1, b2, 0, i0, t1 + 8 * i1, t1 + 8 * i1 + 8, cur1, cur2);
            assert(self.paths@[pd_offset as int].push(pd_index as int) =~= gpa_path(gpa));
            assert(self.entry_ok(buf@, pd_offset as int, pd_index as int));
            assert(path_region(self.paths@[pd_offset as int].push(pd_index as int)) == (gpa >> 21u64) as int);
            let e = entry_at(buf@, pd_offset as int, pd_index as int);
            if e == 0 {
                assert(e & 0x80u64 == 0) by (bit_vector)
                    requires
                        e == 0,
                ;
            }
            assert(pt_index < 512) by (bit_vector)
                requires
                    pt_index == ((gpa >> 12u64) & 0x1FFu64) as usize,
            ;
        }
        let (pt_offset, _) = self.ensure_child(buf, pd_offset, pd_index)?;
        let ghost b3 = buf@;
        let ghost cur3 = self.cursor as int;
        let ghost t3 = pt_offset as int;
        proof {
            assert(self.paths@[t3].len() == 3);
            assert(self.paths@[t3] == gpa_path(gpa));
            assert(t3 % 4096 == 0);
            lemma_aligned_nonzero(t3);
            lemma_slot_disjoint(t2, i2, 0, i0);
            lemma_slot_disjoint(t2, i2, t1, i1);
            lemma_slot_kept(b2, b3, 0, i0, t2 + 8 * i2, t2 + 8 * i2 + 8, cur2, cur3);
            lemma_slot_kept(b2, b3, t1, i1, t2 + 8 * i2, t2 + 8 * i2 + 8, cur2, cur3);
        }
        let ghost mid = *self;
        let entry = ept_4k_entry(hpa, perms, memtype);
        self.write_entry(buf, pt_offset, pt_index, entry);
        proof {
            lemma_entry_write_keeps_wf(*self, b3, buf@, t3, i3);
            let b4 = buf@;
            lemma_slot_disjoint(t3, i3, 0, i0);
            lemma_slot_disjoint(t3, i3, t1, i1);
            lemma_slot_disjoint(t3, i3, t2, i2);
            lemma_slot_kept(b3, b4, 0, i0, t3 + 8 * i3, t3 + 8 * i3 + 8, 0, 0);
            lemma_slot_kept(b3, b4, t1, i1, t3 + 8 * i3, t3 + 8 * i3 + 8, 0, 0);
            lemma_slot_kept(b3, b4, t2, i2, t3 + 8 * i3, t3 + 8 * i3 + 8, 0, 0);
            assert(i3 == level_index(gpa, 12));
            assert(entry_at(b4, t3, i3) == entry);
            assert((gpa % 4096) as int == 0);
            lemma_walk_4k(b4, base, gpa, t1, t2, t3);
            lemma_leaf_write_keeps_pages(mid, *self, b3, b4, t3, gpa);
            lemma_page_of(gpa);
        }
        let ghost before = *self;
        self.pages = Ghost(page_added(self.pages@, gpa, entry));
        proof {
            lemma_add_page_translates(before, *self, buf@, gpa, entry);
            lemma_gpa_region(gpa);
            assert(((gpa >> 21u64) as int) * 512 + (((gpa >> 12u64) & 0x1ffu64) as int) == (gpa >> 12u64) as int) by {
                assert((gpa >> 21u64) * 512 + ((gpa >> 12u64) & 0x1ffu64) == gpa >> 12u64) by (bit_vector);
            }
            lemma_recorded_leaf(mid, *self, b3, buf@, t3, i3, gpa, entry);
        }
        Ok(())
    }
}

/// A 2 MiB-aligned address is its region number times 2 MiB, and every
/// address lies in the region its number designates.
proof fn lemma_region_of(x: u64)
    ensures
        ((x >> 21u64) as int) * 0x20_0000 <= x < ((x >> 21u64) as int) * 0x20_0000 + 0x20_0000,
        x % 0x20_0000 == 0 ==> ((x >> 21u64) as int) * 0x20_0000 == x,
{
    let r = x >> 21u64;
    assert(r * 0x20_0000 <= x && x - r * 0x20_0000 < 0x20_0000 && (x % 0x20_0000 == 0 ==> r * 0x20_0000 == x)) by (bit_vector)
        requires
            r == x >> 21u64,
    ;
}

/// Region `r` lies inside guest range `[base, base + len)`.
pub open spec fn region_within(r: int, base: int, len: int) -> bool {
    base <= r * 0x20_0000 && r * 0x20_0000 + 0x20_0000 <= base + len
}

/// Tables below the root that installing mapping `m` can need: one per
/// 512 GiB and one per 1 GiB region its range touches, and one per 2 MiB
/// region it maps with 4 KiB pages; when guest and host addresses share
/// their offset within 2 MiB, 2 MiB pages cover all but the two ends, so at
/// most two of those.
pub open spec fn mapping_tables(m: EptMapping) -> int {
    if m.size == 0 {
        0
    } else {
        (m.size / 0x80_0000_0000 + 2) + (m.size / 0x4000_0000 + 2) + (if m.guest_phys.0 % 0x20_0000
            == m.host_phys.0 % 0x20_0000 {
            2
        } else {
            m.size / 0x20_0000 + 2
        })
    }
}

/// Whether the step at `offset` may allocate a table at the level below the
/// root (`k == 1`), two below (`k == 2`) or three below (`k == 3`): only when
/// it is the first step or leaves the region of the previous step at `last`.
spec fn step_allocates(offset: int, gpa: u64, last: u64, last_4k: bool, big: bool, k: int) -> bool {
    if k == 1 {
        offset == 0 || gpa >> 39u64 != last >> 39u64
    } else if k == 2 {
        offset == 0 || gpa >> 30u64 != last >> 30u64
    } else {
        !big && (offset == 0 || !last_4k || gpa >> 21u64 != last >> 21u64)
    }
}

spec fn count(b: bool) -> int {
    if b {
        1
    } else {
        0
    }
}

/// The bookkeeping of a range install after the steps before `offset`: the
/// tables allocated so far below the root, counted per level, the guest
/// address `last` of the previous step and whether it wrote a 4 KiB leaf, and
/// whether the range is in its last 2 MiB region.
#[verifier::opaque]
spec fn tally_ok(
    tbl: EptPageTable,
    buf: Seq<u8>,
    start: int,
    m: EptMapping,
    offset: int,
    last: u64,
    last_4k: bool,
    tail: bool,
    c1: int,
    c2: int,
    c3: int,
) -> bool {
    let first = m.guest_phys.0;
    let end = first + m.size;
    &&& 0 <= c1 && 0 <= c2 && 0 <= c3
    &&& tbl.cursor <= start + 4096 * (c1 + c2 + c3)
    &&& offset == 0 ==> c1 == 0 && c2 == 0 && c3 == 0 && !tail && tbl.cursor + root_cost(tbl) == start
    &&& offset > 0 ==> {
        &&& tbl.root_offset is Some
        &&& first <= last < first + offset
        &&& last < end
        &&& first + offset == last + (if last_4k {
            4096int
        } else {
            0x20_0000int
        })
        &&& !last_4k ==> last % 0x20_0000 == 0
        &&& walk_e0(buf, last) != 0 && walk_e1(buf, tbl.buffer_hpa.0, last) != 0
        &&& last_4k ==> walk_e2(buf, tbl.buffer_hpa.0, last) != 0
        &&& c1 <= (last >> 39u64) - (first >> 39u64) + 1
        &&& c2 <= (last >> 30u64) - (first >> 30u64) + 1
        &&& c3 <= (last >> 21u64) - (first >> 21u64) + 1
        &&& tail ==> last_4k && end <= ((last >> 21u64) + 1) * 0x20_0000
        &&& first % 0x20_0000 == m.host_phys.0 % 0x20_0000 ==> c3 <= (if tail {
            2int
        } else {
            1int
        })
    }
}

/// Region numbers grow with the address, a shared 2 MiB region means a
/// shared 1 GiB region and a shared 1 GiB region a shared 512 GiB region.
proof fn lemma_regions(g: u64, h: u64)
    requires
        g <= h,
        h < EPT_GUEST_LIMIT,
    ensures
        g >> 39u64 <= h >> 39u64,
        g >> 30u64 <= h >> 30u64,
        g >> 21u64 <= h >> 21u64,
        g >> 30u64 == h >> 30u64 ==> g >> 39u64 == h >> 39u64,
        g >> 21u64 == h >> 21u64 ==> g >> 30u64 == h >> 30u64,
        g >> 39u64 == g / 0x80_0000_0000,
        g >> 30u64 == g / 0x4000_0000,
        g >> 21u64 == g / 0x20_0000,
        h >> 39u64 == h / 0x80_0000_0000,
        h >> 30u64 == h / 0x4000_0000,
        h >> 21u64 == h / 0x20_0000,
{
    assert(g >> 39u64 <= h >> 39u64 && g >> 30u64 <= h >> 30u64 && g >> 21u64 <= h >> 21u64) by (bit_vector)
        requires
            g <= h,
    ;
    assert((g >> 30u64 == h >> 30u64 ==> g >> 39u64 == h >> 39u64) && (g >> 21u64 == h >> 21u64 ==> g >> 30u64
        == h >> 30u64)) by (bit_vector);
    assert(g >> 39u64 == g / 0x80_0000_0000 && g >> 30u64 == g / 0x4000_0000 && g >> 21u64 == g / 0x20_0000)
        by (bit_vector);
    assert(h >> 39u64 == h / 0x80_0000_0000 && h >> 30u64 == h / 0x4000_0000 && h >> 21u64 == h / 0x20_0000)
        by (bit_vector);
}

/// The regions a range of `size` bytes from `first` touches, up to `last`.
proof fn lemma_region_span(first: int, last: int, size: int, d: int)
    requires
        0 <= first <= last < first + size,
        d > 0,
    ensures
        last / d - first / d + 1 <= size / d + 2,
{
    vstd::arithmetic::div_mod::lemma_div_is_ordered(last, first + size - 1, d);
    assert((first + (size - 1)) / d <= first / d + (size - 1) / d + 1) by (nonlinear_arith)
        requires
            first >= 0,
            size - 1 >= 0,
            d > 0,
    ;
    vstd::arithmetic::div_mod::lemma_div_is_ordered(size - 1, size, d);
}

/// The entries a step at `gpa` reads are those the previous step at `last`
/// left nonzero, as far as the two share regions, so the tables the step
/// misses are among those it may allocate; and the counts stay within the
/// mapping's budget.
#[verifier::spinoff_prover]
#[verifier::rlimit(100)]
proof fn lemma_tally_core(
    tbl: EptPageTable,
    buf: Seq<u8>,
    start: int,
    m: EptMapping,
    offset: int,
    last: u64,
    last_4k: bool,
    tail: bool,
    c1: int,
    c2: int,
    c3: int,
    big: bool,
)
    requires
        tally_ok(tbl, buf, start, m, offset, last, last_4k, tail, c1, c2, c3),
        0 <= offset < m.size,
        offset % 4096 == 0,
        m.guest_phys.0 + m.size <= EPT_GUEST_LIMIT,
        offset > 0 ==> m.guest_phys.0 % 4096 == 0 && m.host_phys.0 % 4096 == 0,
        big ==> m.size - offset >= 0x20_0000 && (m.guest_phys.0 + offset) % 0x20_0000 == 0,
        !big ==> !(m.size - offset >= 0x20_0000 && (m.guest_phys.0 + offset) % 0x20_0000 == 0 && (m.host_phys.0
            + offset) % 0x20_0000 == 0),
    ensures
        ({
            let gpa = (m.guest_phys.0 + offset) as u64;
            let n1 = c1 + count(step_allocates(offset, gpa, last, last_4k, big, 1));
            let n2 = c2 + count(step_allocates(offset, gpa, last, last_4k, big, 2));
            let n3 = c3 + count(step_allocates(offset, gpa, last, last_4k, big, 3));
            let tail2 = tail || (!big && gpa % 0x20_0000 == 0 && m.size - offset < 0x20_0000);
            &&& tbl.root_offset is Some ==> tables_missing(buf, tbl.buffer_hpa.0, gpa, if big {
                2
            } else {
                3
            }) <= count(step_allocates(offset, gpa, last, last_4k, big, 1)) + count(
                step_allocates(offset, gpa, last, last_4k, big, 2),
            ) + count(step_allocates(offset, gpa, last, last_4k, big, 3))
            &&& n1 <= (gpa >> 39u64) - (m.guest_phys.0 >> 39u64) + 1
            &&& n2 <= (gpa >> 30u64) - (m.guest_phys.0 >> 30u64) + 1
            &&& n3 <= (gpa >> 21u64) - (m.guest_phys.0 >> 21u64) + 1
            &&& m.guest_phys.0 % 0x20_0000 == m.host_phys.0 % 0x20_0000 ==> n3 <= (if tail2 {
                2int
            } else {
                1int
            })
            &&& n1 + n2 + n3 <= mapping_tables(m)
            &&& offset == 0 ==> n1 == 1 && n2 == 1 && n3 == count(!big)
            &&& tail2 ==> !big && m.guest_phys.0 + m.size <= ((gpa >> 21u64) + 1) * 0x20_0000
        }),
{
    reveal(tally_ok);
    let first = m.guest_phys.0;
    let gpa = (first + offset) as u64;
    let s1 = step_allocates(offset, gpa, last, last_4k, big, 1);
    let s2 = step_allocates(offset, gpa, last, last_4k, big, 2);
    let s3 = step_allocates(offset, gpa, last, last_4k, big, 3);
    lemma_regions(first, gpa);
    if offset > 0 {
        lemma_regions(last, gpa);
        lemma_regions(first, last);
        let base = tbl.buffer_hpa.0;
        if gpa >> 39u64 == last >> 39u64 {
            assert(walk_e0(buf, gpa) == walk_e0(buf, last));
        }
        if gpa >> 30u64 == last >> 30u64 {
            assert(walk_e0(buf, gpa) == walk_e0(buf, last));
            assert(walk_e1(buf, base, gpa) == walk_e1(buf, base, last));
        }
        if gpa >> 21u64 == last >> 21u64 {
            assert(walk_e0(buf, gpa) == walk_e0(buf, last));
            assert(walk_e1(buf, base, gpa) == walk_e1(buf, base, last));
            assert(walk_e2(buf, base, gpa) == walk_e2(buf, base, last));
        }
        if first % 0x20_0000 == m.host_phys.0 % 0x20_0000 && s3 {
            if gpa % 0x20_0000 != 0 {
                assert((first + offset) % 0x20_0000 != 0);
                if !last_4k {
                    assert(false);
                }
                assert(gpa == last + 4096);
                assert(last % 4096 == 0);
                assert(gpa >> 21u64 == last >> 21u64) by (bit_vector)
                    requires
                        gpa == last + 4096,
                        gpa % 0x20_0000 != 0,
                        last % 4096 == 0,
                        last < 0x1_0000_0000_0000u64,
                ;
                assert(false);
            }
            if tail {
                assert(gpa >> 21u64 == last >> 21u64) by {
                    assert(gpa < first + m.size);
                    assert(first + m.size <= ((last >> 21u64) + 1) * 0x20_0000);
                    assert((last >> 21u64) * 0x20_0000 <= last);
                }
                assert(false);
            }
        }
    }
    let n3 = c3 + count(s3);
    let tail2 = tail || (!big && gpa % 0x20_0000 == 0 && m.size - offset < 0x20_0000);
    if tail {
        let lr = last / 0x20_0000;
        assert(lr * 0x20_0000 <= last) by (nonlinear_arith)
            requires
                lr == last / 0x20_0000,
        ;
        assert(gpa / 0x20_0000 == lr) by (nonlinear_arith)
            requires
                lr == last / 0x20_0000,
                lr * 0x20_0000 <= last < gpa,
                gpa < (lr + 1) * 0x20_0000,
        ;
        if big {
            assert(gpa % 0x20_0000 == 0);
            assert(gpa == (gpa / 0x20_0000) * 0x20_0000) by (nonlinear_arith)
                requires
                    gpa % 0x20_0000 == 0,
            ;
            assert(false);
        }
    } else if tail2 {
        assert(gpa == (gpa / 0x20_0000) * 0x20_0000) by (nonlinear_arith)
            requires
                gpa % 0x20_0000 == 0,
        ;
    }
    if first % 0x20_0000 == m.host_phys.0 % 0x20_0000 && s3 && gpa % 0x20_0000 == 0 {
        assert((m.host_phys.0 + offset) % 0x20_0000 == 0);
        assert(tail2);
    }
    if offset > 0 {
        lemma_region_span(first as int, gpa as int, m.size as int, 0x80_0000_0000);
        lemma_region_span(first as int, gpa as int, m.size as int, 0x4000_0000);
        lemma_region_span(first as int, gpa as int, m.size as int, 0x20_0000);
    } else {
        lemma_region_span(first as int, gpa as int, m.size as int, 0x80_0000_0000);
        lemma_region_span(first as int, gpa as int, m.size as int, 0x4000_0000);
        lemma_region_span(first as int, gpa as int, m.size as int, 0x20_0000);
    }
}


/// One step of a range install, from table state `tbl0` to `tbl1`, keeps the
/// bookkeeping: its tables are counted and it becomes the previous step.
#[verifier::spinoff_prover]
#[verifier::rlimit(60)]
proof fn lemma_tally_step(
    tbl0: EptPageTable,
    b0: Seq<u8>,
    tbl1: EptPageTable,
    b1: Seq<u8>,
    start: int,
    m: EptMapping,
    offset: int,
    last: u64,
    last_4k: bool,
    tail: bool,
    c1: int,
    c2: int,
    c3: int,
    big: bool,
)
    requires
        tally_ok(tbl0, b0, start, m, offset, last, last_4k, tail, c1, c2, c3),
        0 <= offset < m.size,
        offset % 4096 == 0,
        m.guest_phys.0 + m.size <= EPT_GUEST_LIMIT,
        offset > 0 ==> m.guest_phys.0 % 4096 == 0 && m.host_phys.0 % 4096 == 0,
        big ==> m.size - offset >= 0x20_0000 && (m.guest_phys.0 + offset) % 0x20_0000 == 0,
        !big ==> !(m.size - offset >= 0x20_0000 && (m.guest_phys.0 + offset) % 0x20_0000 == 0 && (m.host_phys.0
            + offset) % 0x20_0000 == 0),
        leaf_step(tbl0, tbl1, b0, b1, (m.guest_phys.0 + offset) as u64, if big {
            2
        } else {
            3
        }, true),
        tbl1.cursor <= tbl0.cursor + root_cost(tbl0) + (if big {
            2int
        } else {
            3int
        }) * 4096,
        tbl1.buffer_hpa == tbl0.buffer_hpa,
    ensures
        ({
            let gpa = (m.guest_phys.0 + offset) as u64;
            tally_ok(
                tbl1,
                b1,
                start,
                m,
                offset + (if big {
                    0x20_0000int
                } else {
                    4096int
                }),
                gpa,
                !big,
                tail || (!big && gpa % 0x20_0000 == 0 && m.size - offset < 0x20_0000),
                c1 + count(step_allocates(offset, gpa, last, last_4k, big, 1)),
                c2 + count(step_allocates(offset, gpa, last, last_4k, big, 2)),
                c3 + count(step_allocates(offset, gpa, last, last_4k, big, 3)),
            )
        }),
{
    lemma_tally_core(tbl0, b0, start, m, offset, last, last_4k, tail, c1, c2, c3, big);
    reveal(tally_ok);
    reveal(leaf_step);
}


/// Within the budget of the mapping, the buffer has room for what the step
/// at `offset` allocates.
#[verifier::spinoff_prover]
proof fn lemma_tally_room(
    tbl0: EptPageTable,
    b0: Seq<u8>,
    start: int,
    m: EptMapping,
    offset: int,
    last: u64,
    last_4k: bool,
    tail: bool,
    c1: int,
    c2: int,
    c3: int,
    big: bool,
)
    requires
        tally_ok(tbl0, b0, start, m, offset, last, last_4k, tail, c1, c2, c3),
        0 <= offset < m.size,
        offset % 4096 == 0,
        m.guest_phys.0 + m.size <= EPT_GUEST_LIMIT,
        offset > 0 ==> m.guest_phys.0 % 4096 == 0 && m.host_phys.0 % 4096 == 0,
        big ==> m.size - offset >= 0x20_0000 && (m.guest_phys.0 + offset) % 0x20_0000 == 0,
        !big ==> !(m.size - offset >= 0x20_0000 && (m.guest_phys.0 + offset) % 0x20_0000 == 0 && (m.host_phys.0
            + offset) % 0x20_0000 == 0),
        start + 4096 * mapping_tables(m) <= b0.len(),
    ensures
        tbl0.root_offset is Some ==> tbl0.cursor + 4096 * tables_missing(
            b0,
            tbl0.buffer_hpa.0,
            (m.guest_phys.0 + offset) as u64,
            if big {
                2
            } else {
                3
            },
        ) <= b0.len(),
        tbl0.root_offset is None ==> tbl0.cursor + root_cost(tbl0) + (if big {
            2int
        } else {
            3int
        }) * 4096 <= b0.len(),
{
    lemma_tally_core(tbl0, b0, start, m, offset, last, last_4k, tail, c1, c2, c3, big);
    reveal(tally_ok);
}


/// Once the steps cover the range, the tables allocated below the root stay
/// within the mapping's budget.
#[verifier::spinoff_prover]
proof fn lemma_tally_end(
    tbl: EptPageTable,
    buf: Seq<u8>,
    start: int,
    m: EptMapping,
    offset: int,
    last: u64,
    last_4k: bool,
    tail: bool,
    c1: int,
    c2: int,
    c3: int,
)
    requires
        tally_ok(tbl, buf, start, m, offset, last, last_4k, tail, c1, c2, c3),
        offset >= 0,
        m.size > 0 ==> offset > 0,
        m.guest_phys.0 + m.size <= EPT_GUEST_LIMIT,
    ensures
        tbl.cursor <= start + 4096 * mapping_tables(m),
        tbl.cursor + root_cost(tbl) <= start + 4096 * mapping_tables(m) || (m.size == 0 && tbl.cursor + root_cost(tbl)
            == start),
{
    reveal(tally_ok);
    if offset > 0 {
        let first = m.guest_phys.0;
        lemma_regions(first, last);
        lemma_region_span(first as int, last as int, m.size as int, 0x80_0000_0000);
        lemma_region_span(first as int, last as int, m.size as int, 0x4000_0000);
        lemma_region_span(first as int, last as int, m.size as int, 0x20_0000);
        assert(c1 <= m.size / 0x80_0000_0000 + 2);
        assert(c2 <= m.size / 0x4000_0000 + 2);
        assert(c3 <= m.size / 0x20_0000 + 2);
        if first % 0x20_0000 == m.host_phys.0 % 0x20_0000 {
            assert(c3 <= 2);
        }
        assert(c1 + c2 + c3 <= mapping_tables(m));
    }
}


/// A leaf step that had room for the tables it misses succeeded.
proof fn lemma_leaf_ok(
    t0: EptPageTable,
    t1: EptPageTable,
    b0: Seq<u8>,
    b1: Seq<u8>,
    gpa: u64,
    depth: int,
    ok: bool,
)
    requires
        leaf_step(t0, t1, b0, b1, gpa, depth, ok),
        t0.root_offset is Some,
        t0.cursor + 4096 * tables_missing(b0, t0.buffer_hpa.0, gpa, depth) <= b0.len(),
    ensures
        ok,
{
    reveal(leaf_step);
}


/// Before the first step, nothing is counted.
proof fn lemma_tally_init(tbl: EptPageTable, buf: Seq<u8>, m: EptMapping)
    ensures
        tally_ok(tbl, buf, tbl.cursor + root_cost(tbl), m, 0, 0, false, false, 0, 0, 0),
{
    reveal(tally_ok);
}

impl EptPageTable {
    /// The root table, or `BufferTooSmall` when none was allocated.
    fn root(&self) -> (r: Result<(usize, HostPhysAddr), EptPlanError>)
        requires
            self.buffer_hpa.0 % 4096 == 0,
            self.root_offset matches Some(o) ==> o == 0,
            self.buffer_hpa.0 < EPT_HOST_LIMIT,
        ensures
            self.root_offset is Some ==> r == Ok::<(usize, HostPhysAddr), EptPlanError>((0usize, self.buffer_hpa)),
            self.root_offset is None ==> r == Err::<(usize, HostPhysAddr), EptPlanError>(EptPlanError::BufferTooSmall),
    {
        match self.root_offset {
            Some(offset) => Ok((offset, HostPhysAddr::new(self.buffer_hpa.raw() + offset as u64))),
            None => Err(EptPlanError::BufferTooSmall),
        }
    }

    /// Maps the guest range of `mapping` with 2 MiB pages where guest and
    /// host addresses and the remaining size allow it, 4 KiB pages elsewhere.
    #[verifier::spinoff_prover]
    #[verifier::rlimit(100)]
    fn map_range(&mut self, buf: &mut [u8], mapping: &EptMapping) -> (r: Result<(), EptPlanError>)
        requires
            old(self).wf(old(buf)@),
            mapping.guest_phys.0 + mapping.size <= EPT_GUEST_LIMIT,
            forall|g: int| #[trigger] old(self).leaves@.contains(g) ==> region_disjoint(g, mapping.guest_phys.0 as int, mapping.size as int),
            forall|p: int| #[trigger] old(self).pages@.dom().contains(p) ==> !(mapping.guest_phys.0 <= p * 4096
                < mapping.guest_phys.0 + mapping.size),
        ensures
            final(buf)@.len() == old(buf)@.len(),
            final(self).wf(final(buf)@),
            final(self).buffer_hpa == old(self).buffer_hpa,
            old(self).cursor <= final(self).cursor,
            forall|j: int| final(self).cursor <= j < old(buf)@.len() ==> #[trigger] final(buf)@[j] == old(buf)@[j],
            forall|g: int| #[trigger] final(self).leaves@.contains(g) ==> old(self).leaves@.contains(g) || region_within(
                g,
                mapping.guest_phys.0 as int,
                mapping.size as int,
            ),
            old(self).pages@.submap_of(final(self).pages@),
            forall|p: int| #[trigger] final(self).pages@.dom().contains(p) ==> old(self).pages@.dom().contains(p) || (
            mapping.guest_phys.0 <= p * 4096 < mapping.guest_phys.0 + mapping.size),
            r is Ok ==> pages_cover(final(self).pages@, *mapping, mapping.size as int),
            r is Ok && mapping.size > 0 ==> mapping.guest_phys.0 % 4096 == 0 && mapping.host_phys.0 % 4096 == 0,
            old(self).root_offset is Some ==> final(self).root_offset is Some,
            r is Ok && mapping.size > 0 ==> final(self).root_offset is Some,
            mapping.size == 0 ==> final(self).root_offset == old(self).root_offset,
            r is Err ==> r == Err::<(), EptPlanError>(EptPlanError::BufferTooSmall) || r == Err::<(), EptPlanError>(
                EptPlanError::Overflow,
            ) || r == Err::<(), EptPlanError>(EptPlanError::MisalignedMapping),
            r == Err::<(), EptPlanError>(EptPlanError::Overflow) ==> mapping.host_phys.0 + mapping.size > u64::MAX,
            r == Err::<(), EptPlanError>(EptPlanError::MisalignedMapping) ==> mapping.size > 0 && (
            mapping.guest_phys.0 % 4096 != 0 || mapping.host_phys.0 % 4096 != 0),
            mapping.size == 0 ==> final(self).cursor == old(self).cursor,
            r is Ok ==> final(self).cursor <= old(self).cursor + root_cost(*old(self)) + 4096 * mapping_tables(*mapping),
            range_fits(*old(self), old(buf)@.len() as int, *mapping) ==> r is Ok,
    {
        let perms = mapping_to_permissions(mapping.permissions);
        let memtype = mapping_to_memtype(mapping.memory_type);
        let gpa_base = mapping.guest_phys.raw();
        let hpa_base = mapping.host_phys.raw();
        let size = mapping.size;
        let ghost old_leaves = self.leaves@;
        let ghost old_root = self.root_offset;
        let ghost old_pages = self.pages@;
        let mut offset: u64 = 0;
        let ghost start = self.cursor + root_cost(*self);
        let ghost mut last: u64 = 0;
        let ghost mut last_4k = false;
        let ghost mut tail = false;
        let ghost mut c1: int = 0;
        let ghost mut c2: int = 0;
        let ghost mut c3: int = 0;
        proof {
            lemma_tally_init(*self, buf@, *mapping);
        }
        while offset < size
            invariant
                self.wf(buf@),
                buf@.len() == old(buf)@.len(),
                self.buffer_hpa == old(self).buffer_hpa,
                old(self).cursor <= self.cursor,
                forall|j: int| self.cursor <= j < old(buf)@.len() ==> #[trigger] buf@[j] == old(buf)@[j],
                gpa_base == mapping.guest_phys.0,
                hpa_base == mapping.host_phys.0,
                size == mapping.size,
                perms == mapping_perm_bits(*mapping),
                perms < 8,
                memtype == mapping_memtype_bits(*mapping),
                gpa_base + size <= EPT_GUEST_LIMIT,
                offset % 4096 == 0,
                offset < size + 4096,
                offset > 0 ==> gpa_base % 4096 == 0 && hpa_base % 4096 == 0,
                old_leaves == old(self).leaves@,
                old_root == old(self).root_offset,
                old_pages == old(self).pages@,
                forall|g: int| #[trigger] self.leaves@.contains(g) ==> old_leaves.contains(g) || region_within(
                    g,
                    gpa_base as int,
                    size as int,
                ),
                forall|g: int| #[trigger] self.leaves@.contains(g) ==> offset >= size || region_disjoint(
                    g,
                    gpa_base + offset,
                    size - offset,
                ),
                old_pages.submap_of(self.pages@),
                forall|p: int| #[trigger] self.pages@.dom().contains(p) ==> old_pages.dom().contains(p) || (gpa_base <= p
                    * 4096 < gpa_base + size && p * 4096 < gpa_base + offset),
                forall|p: int| #[trigger] old_pages.dom().contains(p) ==> !(gpa_base <= p * 4096 < gpa_base + size),
                pages_cover(self.pages@, *mapping, offset as int),
                old_root is Some ==> self.root_offset is Some,
                offset > 0 ==> self.root_offset is Some,
                offset == 0 ==> self.root_offset == old_root,
                offset == 0 ==> self.cursor == old(self).cursor,
                tally_ok(*self, buf@, start, *mapping, offset as int, last, last_4k, tail, c1, c2, c3),
                start == old(self).cursor + root_cost(*old(self)),
                range_fits(*old(self), old(buf)@.len() as int, *mapping) ==> hpa_base + size <= u64::MAX && (size == 0
                    || (gpa_base % 4096 == 0 && hpa_base % 4096 == 0)) && start + 4096 * mapping_tables(*mapping)
                    <= buf@.len(),
            decreases size + 4096 - offset,
        {
            let gpa = match checked_add_u64(gpa_base, offset) {
                Ok(v) => v,
                Err(_) => {
                    return Err(EptPlanError::Overflow);
                },
            };
            let hpa = match checked_add_u64(hpa_base, offset) {
                Ok(v) => v,
                Err(_) => {
                    return Err(EptPlanError::Overflow);
                },
            };
            let remaining = size - offset;
            if remaining >= EPT_HUGE_2M_SIZE && gpa % EPT_HUGE_2M_SIZE == 0 && hpa % EPT_HUGE_2M_SIZE == 0 {
                let ghost before = self.leaves@;
                let ghost pages_before = self.pages@;
                proof {
                    lemma_pages_outside_region(*self, buf@, gpa, gpa_base, size, offset, old_pages);
                }
                let ghost t0 = *self;
                let ghost b0 = buf@;
                let fits = Ghost(range_fits(*old(self), old(buf)@.len() as int, *mapping));
                proof {
                    if fits@ {
                        lemma_tally_room(t0, b0, start, *mapping, offset as int, last, last_4k, tail, c1, c2, c3, true);
                    }
                }
                let res = self.map_2m(buf, gpa, hpa, perms, memtype);
                if res.is_err() {
                    proof {
                        if fits@ && t0.root_offset is Some {
                            lemma_leaf_ok(t0, *self, b0, buf@, gpa, 2, false);
                        }
                    }
                    return Err(EptPlanError::BufferTooSmall);
                }
                proof {
                    lemma_tally_step(t0, b0, *self, buf@, start, *mapping, offset as int, last, last_4k, tail, c1, c2, c3, true);
                    c1 = c1 + count(step_allocates(offset as int, gpa, last, last_4k, true, 1));
                    c2 = c2 + count(step_allocates(offset as int, gpa, last, last_4k, true, 2));
                    c3 = c3 + count(step_allocates(offset as int, gpa, last, last_4k, true, 3));
                    tail = tail || (!true && gpa % 0x20_0000 == 0 && mapping.size - offset < 0x20_0000);
                    last = gpa;
                    last_4k = false;
                }
                proof {
                    lemma_region_of(gpa);
                    assert forall|g: int| #[trigger] self.leaves@.contains(g) implies old_leaves.contains(g) || region_within(
                        g,
                        gpa_base as int,
                        size as int,
                    ) by {
                        if g != (gpa >> 21u64) as int {
                            assert(before.contains(g));
                        }
                    }
                    assert forall|g: int| #[trigger] self.leaves@.contains(g) implies offset + 0x20_0000 >= size
                        || region_disjoint(g, gpa_base + offset + 0x20_0000, size - offset - 0x20_0000) by {
                        if g != (gpa >> 21u64) as int {
                            assert(before.contains(g));
                        }
                    }
                    lemma_region_step(pages_before, self.pages@, old_pages, *mapping, gpa, hpa, offset, perms, memtype);
                }
                offset = offset + EPT_HUGE_2M_SIZE;
            } else {
                if gpa % EPT_PAGE_SIZE != 0 || hpa % EPT_PAGE_SIZE != 0 {
                    return Err(EptPlanError::MisalignedMapping);
                }
                let ghost pages_before = self.pages@;
                proof {
                    lemma_region_of(gpa);
                    if self.leaves@.contains((gpa >> 21u64) as int) {
                        assert(region_disjoint((gpa >> 21u64) as int, gpa_base + offset, size - offset));
                    }
                    lemma_page_of(gpa);
                    if self.pages@.dom().contains((gpa >> 12u64) as int) {
                        assert(!old_pages.dom().contains((gpa >> 12u64) as int));
                    }
                }
                let ghost t0 = *self;
                let ghost b0 = buf@;
                let fits = Ghost(range_fits(*old(self), old(buf)@.len() as int, *mapping));
                proof {
                    if fits@ {
                        lemma_tally_room(t0, b0, start, *mapping, offset as int, last, last_4k, tail, c1, c2, c3, false);
                    }
                }
                let res = self.map_4k(buf, gpa, hpa, perms, memtype);
                if res.is_err() {
                    proof {
                        if fits@ && t0.root_offset is Some {
                            lemma_leaf_ok(t0, *self, b0, buf@, gpa, 3, false);
                        }
                    }
                    return Err(EptPlanError::BufferTooSmall);
                }
                proof {
                    lemma_tally_step(t0, b0, *self, buf@, start, *mapping, offset as int, last, last_4k, tail, c1, c2, c3, false);
                    c1 = c1 + count(step_allocates(offset as int, gpa, last, last_4k, false, 1));
                    c2 = c2 + count(step_allocates(offset as int, gpa, last, last_4k, false, 2));
                    c3 = c3 + count(step_allocates(offset as int, gpa, last, last_4k, false, 3));
                    tail = tail || (!false && gpa % 0x20_0000 == 0 && mapping.size - offset < 0x20_0000);
                    last = gpa;
                    last_4k = true;
                }
                proof {
                    lemma_page_step(pages_before, self.pages@, old_pages, *mapping, gpa, hpa, offset, perms, memtype);
                }
                offset = offset + EPT_PAGE_SIZE;
            }
        }
        proof {
            lemma_tally_end(*self, buf@, start, *mapping, offset as int, last, last_4k, tail, c1, c2, c3);
        }
        Ok(())
    }
}

/// The mapping can be installed from table state `t` into a buffer of
/// `len` bytes: its nonempty ranges are page aligned, its host range stays
/// below 2^64, and the buffer leaves room for the root and the tables the
/// mapping can need.
spec fn range_fits(t: EptPageTable, len: int, m: EptMapping) -> bool {
    &&& m.size == 0 || (m.guest_phys.0 % 4096 == 0 && m.host_phys.0 % 4096 == 0)
    &&& m.host_phys.0 + m.size <= u64::MAX
    &&& t.cursor + root_cost(t) + 4096 * mapping_tables(m) <= len
}

/// Permission bits of the leaves of a mapping.
pub open spec fn mapping_perm_bits(m: EptMapping) -> u64 {
    permission_bits(m.permissions.read, m.permissions.write, m.permissions.execute)
}

/// Memory-type bits of the leaves of a mapping.
pub open spec fn mapping_memtype_bits(m: EptMapping) -> u64 {
    match m.memory_type {
        EptMemoryType::WriteBack => EPT_MEMTYPE_WB,
        EptMemoryType::Uncacheable => EPT_MEMTYPE_UC,
    }
}

/// The recorded translation `v` of guest page `p` is the one mapping `m`
/// gives it: its leaf carries the mapping's permission and memory-type bits
/// and, where the host range fits in an entry, the page goes to the host
/// address at the same offset.
pub open spec fn maps_page(v: (int, u64), m: EptMapping, p: int) -> bool {
    &&& v.1 & 7u64 == mapping_perm_bits(m)
    &&& (v.1 >> 3u64) & 7u64 == mapping_memtype_bits(m)
    &&& m.host_phys.0 + m.size <= EPT_HOST_LIMIT ==> v.0 == m.host_phys.0 + (p * 4096 - m.guest_phys.0)
}

/// Every guest page starting in `[m.guest_phys, m.guest_phys + len)` is
/// recorded and mapped as `m` says, when `m` grants some access.
pub open spec fn pages_cover(pages: Map<int, (int, u64)>, m: EptMapping, len: int) -> bool {
    forall|p: int|
        mapping_perm_bits(m) != 0 && 0 <= p < 0x10_0000_0000 && m.guest_phys.0 <= p * 4096 < m.guest_phys.0 + len
            ==> #[trigger] pages.dom().contains(p) && maps_page(pages[p], m, p)
}

/// Coverage survives recording more pages.
proof fn lemma_cover_grows(before: Map<int, (int, u64)>, after: Map<int, (int, u64)>, m: EptMapping, len: int)
    requires
        pages_cover(before, m, len),
        before.submap_of(after),
    ensures
        pages_cover(after, m, len),
{
    assert forall|p: int|
        mapping_perm_bits(m) != 0 && 0 <= p < 0x10_0000_0000 && m.guest_phys.0 <= p * 4096 < m.guest_phys.0 + len
            implies #[trigger] after.dom().contains(p) && maps_page(after[p], m, p) by {
        assert(mapping_perm_bits(m) != 0 && 0 <= p < 0x10_0000_0000 && m.guest_phys.0 <= p * 4096 < m.guest_phys.0
            + len);
        assert(pages_cover(before, m, len));
        assert(before.dom().contains(p));
        assert(maps_page(before[p], m, p));
        assert(before.submap_of(after));
        assert(after.dom().contains(p));
        assert(after[p] == before[p]);
    }
}

/// Bits of a 4 KiB leaf: permissions, memory type and, for an aligned host
/// page below 2^52, the host address.
proof fn lemma_leaf_4k_bits(h: u64, perms: u64, mt: u64)
    requires
        perms < 8,
        mt < 8,
    ensures
        leaf_4k_entry(h, perms, mt) & 7u64 == perms,
        (leaf_4k_entry(h, perms, mt) >> 3u64) & 7u64 == mt,
        h % 4096 == 0 && h < EPT_HOST_LIMIT ==> leaf_4k_entry(h, perms, mt) & EPT_ADDR_MASK_4K == h,
{
    assert((((h & 0x000F_FFFF_FFFF_F000u64) | perms) | (mt << 3u64)) & 7u64 == perms && ((((h & 0x000F_FFFF_FFFF_F000u64)
        | perms) | (mt << 3u64)) >> 3u64) & 7u64 == mt) by (bit_vector)
        requires
            perms < 8,
            mt < 8,
    ;
    assert(h % 4096 == 0 && h < 0x10_0000_0000_0000u64 ==> (((h & 0x000F_FFFF_FFFF_F000u64) | perms) | (mt << 3u64))
        & 0x000F_FFFF_FFFF_F000u64 == h) by (bit_vector)
        requires
            perms < 8,
            mt < 8,
    ;
}

/// Bits of a 2 MiB leaf: permissions, memory type and, for an aligned host
/// region below 2^52, the host address.
proof fn lemma_leaf_2m_bits(h: u64, perms: u64, mt: u64)
    requires
        perms < 8,
        mt < 8,
    ensures
        leaf_2m_entry(h, perms, mt) & 7u64 == perms,
        (leaf_2m_entry(h, perms, mt) >> 3u64) & 7u64 == mt,
        h % 0x20_0000 == 0 && h < EPT_HOST_LIMIT ==> leaf_2m_entry(h, perms, mt) & EPT_ADDR_MASK_2M == h,
{
    assert(((((h & 0x000F_FFFF_FFE0_0000u64) | perms) | (mt << 3u64)) | 0x80u64) & 7u64 == perms && (((((h
        & 0x000F_FFFF_FFE0_0000u64) | perms) | (mt << 3u64)) | 0x80u64) >> 3u64) & 7u64 == mt) by (bit_vector)
        requires
            perms < 8,
            mt < 8,
    ;
    assert(h % 0x20_0000 == 0 && h < 0x10_0000_0000_0000u64 ==> ((((h & 0x000F_FFFF_FFE0_0000u64) | perms) | (mt
        << 3u64)) | 0x80u64) & 0x000F_FFFF_FFE0_0000u64 == h) by (bit_vector)
        requires
            perms < 8,
            mt < 8,
    ;
}

/// An address lies in the 2 MiB region starting at the aligned `g` exactly
/// when its region number is that of `g`, and its offset in the region is
/// its distance from `g`.
proof fn lemma_in_region(x: u64, g: u64)
    requires
        g % 0x20_0000 == 0,
    ensures
        x >> 21u64 == g >> 21u64 <==> g <= x < g + 0x20_0000,
        x >> 21u64 == g >> 21u64 ==> x % 0x20_0000 == x - g,
{
    assert((x >> 21u64 == g >> 21u64) == (g <= x && x - g < 0x20_0000)) by (bit_vector)
        requires
            g % 0x20_0000 == 0,
    ;
    assert(x >> 21u64 == g >> 21u64 ==> x % 0x20_0000 == x - g) by (bit_vector)
        requires
            g % 0x20_0000 == 0,
    ;
}

/// No page recorded before a 2 MiB step lies in the region the step maps.
proof fn lemma_pages_outside_region(
    tbl: EptPageTable,
    buf: Seq<u8>,
    gpa: u64,
    gpa_base: u64,
    size: u64,
    offset: u64,
    old_pages: Map<int, (int, u64)>,
)
    requires
        tbl.translates(buf),
        gpa == gpa_base + offset,
        gpa % 0x20_0000 == 0,
        size - offset >= 0x20_0000,
        forall|p: int| #[trigger] tbl.pages@.dom().contains(p) ==> old_pages.dom().contains(p) || (gpa_base <= p * 4096
            < gpa_base + size && p * 4096 < gpa_base + offset),
        forall|p: int| #[trigger] old_pages.dom().contains(p) ==> !(gpa_base <= p * 4096 < gpa_base + size),
    ensures
        forall|p: int| #[trigger] tbl.pages@.dom().contains(p) ==> ((p * 4096) as u64) >> 21u64 != gpa >> 21u64,
{
    assert forall|p: int| #[trigger] tbl.pages@.dom().contains(p) implies ((p * 4096) as u64) >> 21u64 != gpa
        >> 21u64 by {
        lemma_translation_of(tbl, buf, p);
        lemma_page_addr(p);
        lemma_in_region((p * 4096) as u64, gpa);
    }
}

/// The recorded pages after one 4 KiB step of mapping `m` at offset `off`.
#[verifier::spinoff_prover]
#[verifier::rlimit(40)]
proof fn lemma_page_step(
    before: Map<int, (int, u64)>,
    after: Map<int, (int, u64)>,
    old_pages: Map<int, (int, u64)>,
    m: EptMapping,
    gpa: u64,
    hpa: u64,
    off: u64,
    perms: u64,
    mt: u64,
)
    requires
        after == page_added(before, gpa, leaf_4k_entry(hpa, perms, mt)),
        gpa == m.guest_phys.0 + off,
        hpa == m.host_phys.0 + off,
        gpa % 4096 == 0,
        hpa % 4096 == 0,
        off % 4096 == 0,
        off < m.size,
        m.guest_phys.0 + m.size <= EPT_GUEST_LIMIT,
        perms == mapping_perm_bits(m),
        perms < 8,
        mt == mapping_memtype_bits(m),
        !before.dom().contains((gpa >> 12u64) as int),
        old_pages.submap_of(before),
        forall|p: int| #[trigger] before.dom().contains(p) ==> old_pages.dom().contains(p) || (m.guest_phys.0 <= p
            * 4096 < m.guest_phys.0 + m.size && p * 4096 < m.guest_phys.0 + off),
        pages_cover(before, m, off as int),
    ensures
        old_pages.submap_of(after),
        forall|p: int| #[trigger] after.dom().contains(p) ==> old_pages.dom().contains(p) || (m.guest_phys.0 <= p
            * 4096 < m.guest_phys.0 + m.size && p * 4096 < m.guest_phys.0 + off + 4096),
        pages_cover(after, m, off + 4096),
{
    let e = leaf_4k_entry(hpa, perms, mt);
    assert(mt < 8);
    lemma_leaf_4k_bits(hpa, perms, mt);
    lemma_page_of(gpa);
    let g = (gpa >> 12u64) as int;
    assert(g * 4096 == gpa);
    assert(entry_present(e) == (perms != 0));
    assert forall|p: int| #[trigger] after.dom().contains(p) implies old_pages.dom().contains(p) || (m.guest_phys.0
        <= p * 4096 < m.guest_phys.0 + m.size && p * 4096 < m.guest_phys.0 + off + 4096) by {
        if p != g {
            assert(before.dom().contains(p));
        }
    }
    assert forall|p: int| #[trigger] old_pages.dom().contains(p) implies after.dom().contains(p) && after[p]
        == old_pages[p] by {
        assert(before.dom().contains(p));
        assert(p != g);
    }
    assert forall|p: int|
        mapping_perm_bits(m) != 0 && 0 <= p < 0x10_0000_0000 && m.guest_phys.0 <= p * 4096 < m.guest_phys.0 + off
            + 4096 implies #[trigger] after.dom().contains(p) && maps_page(after[p], m, p) by {
        if p * 4096 < m.guest_phys.0 + off {
            assert(before.dom().contains(p) && maps_page(before[p], m, p));
            assert(p != g);
        } else {
            lemma_new_page(after, m, e, hpa, off, g, p);
        }
    }
    assert(pages_cover(after, m, off + 4096));
}

/// The page a 4 KiB step of mapping `m` adds is mapped as `m` says.
proof fn lemma_new_page(after: Map<int, (int, u64)>, m: EptMapping, e: u64, hpa: u64, off: u64, g: int, p: int)
    requires
        after.dom().contains(g),
        after[g] == ((e & EPT_ADDR_MASK_4K) as int, e),
        e & 7u64 == mapping_perm_bits(m),
        (e >> 3u64) & 7u64 == mapping_memtype_bits(m),
        hpa % 4096 == 0 && hpa < EPT_HOST_LIMIT ==> e & EPT_ADDR_MASK_4K == hpa,
        hpa == m.host_phys.0 + off,
        hpa % 4096 == 0,
        off < m.size,
        g * 4096 == m.guest_phys.0 + off,
        g * 4096 <= p * 4096 < g * 4096 + 4096,
    ensures
        after.dom().contains(p),
        maps_page(after[p], m, p),
{
    assert(p == g) by (nonlinear_arith)
        requires
            g * 4096 <= p * 4096 < g * 4096 + 4096,
    ;
}

/// The recorded pages after one 2 MiB step of mapping `m` at offset `off`.
#[verifier::spinoff_prover]
#[verifier::rlimit(40)]
proof fn lemma_region_step(
    before: Map<int, (int, u64)>,
    after: Map<int, (int, u64)>,
    old_pages: Map<int, (int, u64)>,
    m: EptMapping,
    gpa: u64,
    hpa: u64,
    off: u64,
    perms: u64,
    mt: u64,
)
    requires
        after == region_added(before, gpa, leaf_2m_entry(hpa, perms, mt)),
        gpa == m.guest_phys.0 + off,
        hpa == m.host_phys.0 + off,
        gpa % 0x20_0000 == 0,
        hpa % 0x20_0000 == 0,
        off % 4096 == 0,
        off + 0x20_0000 <= m.size,
        m.guest_phys.0 + m.size <= EPT_GUEST_LIMIT,
        perms == mapping_perm_bits(m),
        perms < 8,
        mt == mapping_memtype_bits(m),
        forall|p: int| #[trigger] before.dom().contains(p) ==> ((p * 4096) as u64) >> 21u64 != gpa >> 21u64,
        old_pages.submap_of(before),
        forall|p: int| #[trigger] before.dom().contains(p) ==> old_pages.dom().contains(p) || (m.guest_phys.0 <= p
            * 4096 < m.guest_phys.0 + m.size && p * 4096 < m.guest_phys.0 + off),
        pages_cover(before, m, off as int),
    ensures
        old_pages.submap_of(after),
        forall|p: int| #[trigger] after.dom().contains(p) ==> old_pages.dom().contains(p) || (m.guest_phys.0 <= p
            * 4096 < m.guest_phys.0 + m.size && p * 4096 < m.guest_phys.0 + off + 0x20_0000),
        pages_cover(after, m, off + 0x20_0000),
{
    let e = leaf_2m_entry(hpa, perms, mt);
    assert(mt < 8);
    lemma_leaf_2m_bits(hpa, perms, mt);
    assert(entry_present(e) == (perms != 0));
    assert forall|p: int| #[trigger] after.dom().contains(p) implies old_pages.dom().contains(p) || (m.guest_phys.0
        <= p * 4096 < m.guest_phys.0 + m.size && p * 4096 < m.guest_phys.0 + off + 0x20_0000) by {
        if !before.dom().contains(p) {
            lemma_page_addr(p);
            lemma_in_region((p * 4096) as u64, gpa);
        }
    }
    assert forall|p: int| #[trigger] old_pages.dom().contains(p) implies after.dom().contains(p) && after[p]
        == old_pages[p] by {
        assert(before.dom().contains(p));
    }
    assert forall|p: int|
        mapping_perm_bits(m) != 0 && 0 <= p < 0x10_0000_0000 && m.guest_phys.0 <= p * 4096 < m.guest_phys.0 + off
            + 0x20_0000 implies #[trigger] after.dom().contains(p) && maps_page(after[p], m, p) by {
        {
            lemma_page_addr(p);
            lemma_in_region((p * 4096) as u64, gpa);
            if p * 4096 < m.guest_phys.0 + off {
                assert(before.dom().contains(p));
            } else {
                assert(((p * 4096) as u64) >> 21u64 == gpa >> 21u64);
                if m.host_phys.0 + m.size <= EPT_HOST_LIMIT {
                    assert(hpa < EPT_HOST_LIMIT);
                }
            }
        }
    }
    assert(pages_cover(after, m, off + 0x20_0000));
}

fn mapping_to_permissions(perms: EptPermissions) -> (r: u64)
    ensures
        r < 8,
        r == permission_bits(perms.read, perms.write, perms.execute),
{
    ept_permissions(perms.read, perms.write, perms.execute)
}

fn mapping_to_memtype(memtype: EptMemoryType) -> (r: u64)
    ensures
        memtype == EptMemoryType::WriteBack ==> r == EPT_MEMTYPE_WB,
        memtype == EptMemoryType::Uncacheable ==> r == EPT_MEMTYPE_UC,
{
    match memtype {
        EptMemoryType::WriteBack => EPT_MEMTYPE_WB,
        EptMemoryType::Uncacheable => EPT_MEMTYPE_UC,
    }
}

/// The walk for `gpa` meets the leaf it meets for the start of its 4 KiB
/// page, and lands at the same offset from the page's host address.
#[verifier::spinoff_prover]
#[verifier::rlimit(40)]
proof fn lemma_walk_in_page(buf: Seq<u8>, base: u64, gpa: u64)
    requires
        gpa < EPT_GUEST_LIMIT,
    ensures
        ({
            let x = ((((gpa >> 12u64) as int) * 4096) as u64);
            ept_walk(buf, base, gpa) == match ept_walk(buf, base, x) {
                Some((h, e)) => Some((h + (gpa % 4096) as int, e)),
                None => None,
            }
        }),
{
    let p = (gpa >> 12u64) as int;
    let x = (p * 4096) as u64;
    assert((gpa >> 12u64) * 4096 == gpa - gpa % 4096 && (gpa >> 12u64) < 0x10_0000_0000) by (bit_vector)
        requires
            gpa < 0x1_0000_0000_0000u64,
    ;
    assert(x == gpa - gpa % 4096);
    assert(x >> 12u64 == gpa >> 12u64 && x % 0x20_0000 + gpa % 4096 == gpa % 0x20_0000) by (bit_vector)
        requires
            x == gpa - gpa % 4096,
    ;
    lemma_same_indices(x, gpa);
}

/// The translation a walk gives for `gpa` is the one mapping `m` asks for:
/// the leaf carries its permission and memory-type bits and, where its host
/// range fits in an entry, the address lies at the same offset in the host range.
pub open spec fn walk_maps(w: Option<(int, u64)>, m: EptMapping, gpa: u64) -> bool {
    &&& w is Some
    &&& w->Some_0.1 & 7u64 == mapping_perm_bits(m)
    &&& (w->Some_0.1 >> 3u64) & 7u64 == mapping_memtype_bits(m)
    &&& m.host_phys.0 + m.size <= EPT_HOST_LIMIT ==> w->Some_0.0 == m.host_phys.0 + (gpa - m.guest_phys.0)
}

/// Every address of a mapping that grants some access translates as the
/// mapping asks, once its pages are recorded.
proof fn lemma_installed_translation(tbl: EptPageTable, buf: Seq<u8>, m: EptMapping, gpa: u64)
    requires
        tbl.translates(buf),
        pages_cover(tbl.pages@, m, m.size as int),
        m.guest_phys.0 % 4096 == 0,
        m.guest_phys.0 + m.size <= EPT_GUEST_LIMIT,
        mapping_perm_bits(m) != 0,
        m.guest_phys.0 <= gpa < m.guest_phys.0 + m.size,
    ensures
        walk_maps(ept_walk(buf, tbl.buffer_hpa.0, gpa), m, gpa),
{
    let p = (gpa >> 12u64) as int;
    lemma_walk_in_page(buf, tbl.buffer_hpa.0, gpa);
    assert((gpa >> 12u64) * 4096 == gpa - gpa % 4096 && (gpa >> 12u64) < 0x10_0000_0000) by (bit_vector)
        requires
            gpa < 0x1_0000_0000_0000u64,
    ;
    assert(p * 4096 == gpa - gpa % 4096);
    assert(m.guest_phys.0 <= p * 4096) by {
        assert(m.guest_phys.0 % 4096 == 0);
        assert((gpa - gpa % 4096) % 4096 == 0);
        if p * 4096 < m.guest_phys.0 {
            assert(gpa - gpa % 4096 + 4096 <= m.guest_phys.0);
        }
    }
    assert(tbl.pages@.dom().contains(p) && maps_page(tbl.pages@[p], m, p));
    lemma_translation_of(tbl, buf, p);
}

/// Table bytes, beyond the root, that installing `ms` takes at most: a
/// table for each table each mapping can need.
pub open spec fn install_budget(ms: Seq<EptMapping>) -> int
    decreases ms.len(),
{
    if ms.len() == 0 {
        0
    } else {
        install_budget(ms.drop_last()) + 4096 * mapping_tables(ms.last())
    }
}

/// `mappings` can be installed into a buffer of `len` bytes: there is some
/// address to map, every nonempty range is 4 KiB aligned, no host range runs
/// past 2^64, and the buffer holds the root and the budget of the mappings.
pub open spec fn mappings_installable(ms: Seq<EptMapping>, len: int) -> bool {
    &&& exists|k: int| 0 <= k < ms.len() && (#[trigger] ms[k]).size > 0
    &&& forall|k: int|
        0 <= k < ms.len() ==> (#[trigger] ms[k]).size == 0 || (ms[k].guest_phys.0 % 4096 == 0 && ms[k].host_phys.0 % 4096
            == 0)
    &&& forall|k: int| 0 <= k < ms.len() ==> (#[trigger] ms[k]).host_phys.0 + ms[k].size <= u64::MAX
    &&& 4096 + install_budget(ms) <= len
}

/// No list has a negative budget.
proof fn lemma_budget_nonneg(ms: Seq<EptMapping>)
    ensures
        install_budget(ms) >= 0,
    decreases ms.len(),
{
    if ms.len() > 0 {
        lemma_budget_nonneg(ms.drop_last());
    }
}

/// The budget of a prefix grows by the next mapping's share and never
/// passes the budget of the whole list.
proof fn lemma_budget_prefix(ms: Seq<EptMapping>, k: int)
    requires
        0 <= k < ms.len(),
    ensures
        install_budget(ms.take(k)) >= 0,
        install_budget(ms.take(k + 1)) == install_budget(ms.take(k)) + 4096 * mapping_tables(ms[k]),
        install_budget(ms.take(k + 1)) <= install_budget(ms),
    decreases ms.len() - k,
{
    lemma_budget_nonneg(ms.take(k));
    assert(ms.take(k + 1).drop_last() =~= ms.take(k));
    if k + 1 < ms.len() {
        lemma_budget_prefix(ms, k + 1);
    } else {
        assert(ms.take(k + 1) =~= ms);
    }
}

/// The 4 KiB page of `gpa` starts inside mapping `m`.
pub open spec fn page_in_mapping(gpa: u64, m: EptMapping) -> bool {
    m.guest_phys.0 <= (gpa >> 12u64) * 4096 < m.guest_phys.0 + m.size
}

/// Isolation: a guest address translates only where its 4 KiB page starts
/// inside one of the mappings whose leaves the tables hold.
proof fn lemma_isolation(tbl: EptPageTable, buf: Seq<u8>, ms: Seq<EptMapping>)
    requires
        tbl.wf(buf),
        tbl.root_offset is Some,
        forall|g: int| #[trigger] tbl.leaves@.contains(g) ==> exists|q: int|
            0 <= q < ms.len() && region_within(g, (#[trigger] ms[q]).guest_phys.0 as int, ms[q].size as int),
        forall|p: int| #[trigger] tbl.pages@.dom().contains(p) ==> exists|q: int|
            0 <= q < ms.len() && (#[trigger] ms[q]).guest_phys.0 <= p * 4096 < ms[q].guest_phys.0 + ms[q].size,
    ensures
        forall|gpa: u64|
            gpa < EPT_GUEST_LIMIT && (#[trigger] ept_walk(buf, tbl.buffer_hpa.0, gpa)) is Some ==> exists|k: int|
                0 <= k < ms.len() && page_in_mapping(gpa, #[trigger] ms[k]),
{
    let base = tbl.buffer_hpa.0;
    assert forall|gpa: u64|
        gpa < EPT_GUEST_LIMIT && (#[trigger] ept_walk(buf, base, gpa)) is Some implies exists|k: int|
            0 <= k < ms.len() && page_in_mapping(gpa, #[trigger] ms[k]) by {
        lemma_walk_tables(tbl, buf, gpa);
        let r = gpa >> 21u64;
        assert((r as int) * 0x20_0000 <= (gpa >> 12u64) * 4096 < (r as int) * 0x20_0000 + 0x20_0000) by {
            assert(r * 0x20_0000 <= (gpa >> 12u64) * 4096 && (gpa >> 12u64) * 4096 < r * 0x20_0000 + 0x20_0000)
                by (bit_vector)
                requires
                    r == gpa >> 21u64,
                    gpa < 0x1_0000_0000_0000u64,
            ;
        }
        if walk_e2(buf, base, gpa) & EPT_LARGE_PAGE != 0 {
            assert(tbl.leaves@.contains(r as int));
            let q = choose|q: int| 0 <= q < ms.len() && region_within(r as int, (#[trigger] ms[q]).guest_phys.0 as int, ms[q].size as int);
            assert(page_in_mapping(gpa, ms[q]));
        } else {
            assert(walk_reads(buf, base, gpa, 3));
            let t = walk_table(buf, base, gpa, 3);
            let i = level_index(gpa, 12);
            assert(tbl.paths@.dom().contains(t) && tbl.paths@[t] == gpa_path(gpa).take(3));
            assert(gpa_path(gpa).take(3) =~= gpa_path(gpa));
            lemma_gpa_region(gpa);
            assert(0 <= i < 512) by {
                assert(((gpa >> 12u64) & 0x1ffu64) < 512) by (bit_vector);
            }
            assert(walk_e3(buf, base, gpa) == entry_at(buf, t, i));
            reveal(EptPageTable::leaves_recorded);
            assert(tbl.pages@.dom().contains(path_region(tbl.paths@[t]) * 512 + i));
            assert((r as int) * 512 + i == (gpa >> 12u64) as int) by {
                assert((gpa >> 21u64) * 512 + ((gpa >> 12u64) & 0x1ffu64) == gpa >> 12u64) by (bit_vector);
            }
            let p = (gpa >> 12u64) as int;
            let q = choose|q: int|
                0 <= q < ms.len() && (#[trigger] ms[q]).guest_phys.0 <= p * 4096 < ms[q].guest_phys.0 + ms[q].size;
            assert(page_in_mapping(gpa, ms[q]));
        }
    }
}

/// Two of the mappings share guest addresses without being the same mapping.
pub open spec fn mappings_conflict(ms: Seq<EptMapping>) -> bool {
    exists|j: int, k: int|
        0 <= j < k < ms.len() && #[trigger] ranges_overlap(
            ms[j].guest_phys.0 as int,
            ms[j].size as int,
            ms[k].guest_phys.0 as int,
            ms[k].size as int,
        ) && ms[j] != ms[k]
}

/// Mapping `k` repeats one that comes before it.
pub open spec fn repeats_earlier(ms: Seq<EptMapping>, k: int) -> bool {
    exists|j: int| 0 <= j < k && #[trigger] ms[j] == ms[k]
}

/// Whether two of the mappings conflict.
fn find_conflict(mappings: &[EptMapping]) -> (r: bool)
    ensures
        r == mappings_conflict(mappings@),
{
    let n = mappings.len();
    let mut k: usize = 0;
    while k < n
        invariant
            n == mappings@.len(),
            k <= n,
            forall|j: int, l: int|
                0 <= j < l < k ==> !(#[trigger] ranges_overlap(
                    mappings@[j].guest_phys.0 as int,
                    mappings@[j].size as int,
                    mappings@[l].guest_phys.0 as int,
                    mappings@[l].size as int,
                ) && mappings@[j] != mappings@[l]),
        decreases n - k,
    {
        let mut j: usize = 0;
        while j < k
            invariant
                n == mappings@.len(),
                j <= k < n,
                forall|i: int|
                    0 <= i < j ==> !(#[trigger] ranges_overlap(
                        mappings@[i].guest_phys.0 as int,
                        mappings@[i].size as int,
                        mappings@[k as int].guest_phys.0 as int,
                        mappings@[k as int].size as int,
                    ) && mappings@[i] != mappings@[k as int]),
            decreases k - j,
        {
            let a = mappings[j];
            let b = mappings[k];
            if ranges_overlap_u64(a.guest_phys.raw(), a.size, b.guest_phys.raw(), b.size) && a != b {
                return true;
            }
            j = j + 1;
        }
        k = k + 1;
    }
    false
}

/// Whether mapping `k` repeats one that comes before it.
fn repeats_earlier_exec(mappings: &[EptMapping], k: usize) -> (r: bool)
    requires
        k < mappings@.len(),
    ensures
        r == repeats_earlier(mappings@, k as int),
{
    let mut j: usize = 0;
    while j < k
        invariant
            j <= k < mappings@.len(),
            forall|i: int| 0 <= i < j ==> mappings@[i] != mappings@[k as int],
        decreases k - j,
    {
        if mappings[j] == mappings[k] {
            return true;
        }
        j = j + 1;
    }
    false
}

/// Installs EPT mappings into `buffer`, whose first byte is at host address
/// `buffer_hpa`, returning the root table address and the bytes used.
pub fn install_ept_mappings(buffer: &mut [u8], buffer_hpa: HostPhysAddr, mappings: &[EptMapping]) -> (r: Result<
    EptInstallResult,
    EptPlanError,
>)
    requires
        buffer_hpa.0 + old(buffer)@.len() < EPT_HOST_LIMIT,
        forall|k: int| 0 <= k < mappings@.len() ==> (#[trigger] mappings@[k]).guest_phys.0 + mappings@[k].size <= EPT_GUEST_LIMIT,
    ensures
        final(buffer)@.len() == old(buffer)@.len(),
        mappings@.len() == 0 <==> r == Err::<EptInstallResult, EptPlanError>(EptPlanError::EmptyMappings),
        mappings@.len() > 0 && buffer_hpa.0 % 4096 != 0 ==> r == Err::<EptInstallResult, EptPlanError>(
            EptPlanError::MisalignedBuffer,
        ),
        mappings@.len() > 0 && buffer_hpa.0 % 4096 == 0 && mappings_conflict(mappings@) ==> r == Err::<
            EptInstallResult,
            EptPlanError,
        >(EptPlanError::OverlappingMappings),
        mappings@.len() > 0 && buffer_hpa.0 % 4096 == 0 && (forall|k: int|
            0 <= k < mappings@.len() ==> (#[trigger] mappings@[k]).size == 0) ==> r == Err::<
            EptInstallResult,
            EptPlanError,
        >(EptPlanError::BufferTooSmall),
        r matches Ok(res) ==> {
            &&& res.root_hpa == buffer_hpa
            &&& res.bytes_used % 4096 == 0
            &&& 4096 <= res.bytes_used <= old(buffer)@.len()
            &&& forall|j: int| res.bytes_used <= j < old(buffer)@.len() ==> #[trigger] final(buffer)@[j] == old(buffer)@[j]
        },
        buffer_hpa.0 % 4096 == 0 && !mappings_conflict(mappings@) && mappings_installable(
            mappings@,
            old(buffer)@.len() as int,
        ) ==> r is Ok,
        r matches Ok(res) ==> res.bytes_used <= 4096 + install_budget(mappings@),
        r is Ok ==> forall|k: int|
            0 <= k < mappings@.len() && (#[trigger] mappings@[k]).size > 0 ==> mappings@[k].guest_phys.0 % 4096 == 0
                && mappings@[k].host_phys.0 % 4096 == 0,
        r is Ok ==> forall|k: int, gpa: u64|
            #![trigger mappings@[k], ept_walk(final(buffer)@, buffer_hpa.0, gpa)]
            0 <= k < mappings@.len() && mapping_perm_bits(mappings@[k]) != 0 && mappings@[k].guest_phys.0 <= gpa
                < mappings@[k].guest_phys.0 + mappings@[k].size ==> walk_maps(
                ept_walk(final(buffer)@, buffer_hpa.0, gpa),
                mappings@[k],
                gpa,
            ),
        r is Ok ==> forall|gpa: u64|
            gpa < EPT_GUEST_LIMIT && (#[trigger] ept_walk(final(buffer)@, buffer_hpa.0, gpa)) is Some ==> exists|k: int|
                0 <= k < mappings@.len() && page_in_mapping(gpa, #[trigger] mappings@[k]),
        r == Err::<EptInstallResult, EptPlanError>(EptPlanError::Overflow) ==> exists|k: int|
            0 <= k < mappings@.len() && (#[trigger] mappings@[k]).host_phys.0 + mappings@[k].size > u64::MAX,
        r == Err::<EptInstallResult, EptPlanError>(EptPlanError::MisalignedMapping) ==> exists|k: int|
            0 <= k < mappings@.len() && (#[trigger] mappings@[k]).size > 0 && (mappings@[k].guest_phys.0 % 4096 != 0
                || mappings@[k].host_phys.0 % 4096 != 0),
        r is Err ==> r == Err::<EptInstallResult, EptPlanError>(EptPlanError::EmptyMappings) || r == Err::<
            EptInstallResult,
            EptPlanError,
        >(EptPlanError::BufferTooSmall) || r == Err::<EptInstallResult, EptPlanError>(EptPlanError::Overflow) || r
            == Err::<EptInstallResult, EptPlanError>(EptPlanError::MisalignedMapping) || r == Err::<
            EptInstallResult,
            EptPlanError,
        >(EptPlanError::MisalignedBuffer) || r == Err::<EptInstallResult, EptPlanError>(
            EptPlanError::OverlappingMappings,
        ),
{
    if mappings.len() == 0 {
        return Err(EptPlanError::EmptyMappings);
    }
    if buffer_hpa.raw() % EPT_PAGE_SIZE != 0 {
        return Err(EptPlanError::MisalignedBuffer);
    }
    if find_conflict(mappings) {
        return Err(EptPlanError::OverlappingMappings);
    }
    let ghost ms = mappings@;
    let mut table = EptPageTable::new(buffer_hpa);
    proof {
        lemma_no_pages_translate(table, buffer@);
        lemma_recorded_empty(table, buffer@);
    }
    let mut k: usize = 0;
    while k < mappings.len()
        invariant
            ms == mappings@,
            ms.len() > 0,
            k <= ms.len(),
            table.wf(buffer@),
            buffer@.len() == old(buffer)@.len(),
            table.buffer_hpa == buffer_hpa,
            forall|j: int| table.cursor <= j < old(buffer)@.len() ==> #[trigger] buffer@[j] == old(buffer)@[j],
            forall|q: int| 0 <= q < ms.len() ==> (#[trigger] ms[q]).guest_phys.0 + ms[q].size <= EPT_GUEST_LIMIT,
            !mappings_conflict(ms),
            forall|g: int| #[trigger] table.leaves@.contains(g) ==> exists|q: int|
                0 <= q < k && region_within(g, (#[trigger] ms[q]).guest_phys.0 as int, ms[q].size as int),
            forall|p: int| #[trigger] table.pages@.dom().contains(p) ==> exists|q: int|
                0 <= q < k && (#[trigger] ms[q]).guest_phys.0 <= p * 4096 < ms[q].guest_phys.0 + ms[q].size,
            forall|q: int| 0 <= q < k ==> pages_cover(table.pages@, #[trigger] ms[q], ms[q].size as int),
            forall|q: int| 0 <= q < k && (#[trigger] ms[q]).size > 0 ==> ms[q].guest_phys.0 % 4096 == 0
                && ms[q].host_phys.0 % 4096 == 0,
            (forall|q: int| 0 <= q < k ==> (#[trigger] ms[q]).size == 0) ==> table.root_offset is None,
            (exists|q: int| 0 <= q < k && (#[trigger] ms[q]).size > 0) ==> table.root_offset is Some,
            table.root_offset is None ==> table.cursor == 0,
            table.cursor <= 4096 + install_budget(ms.take(k as int)),
            mappings_installable(ms, old(buffer)@.len() as int) ==> 4096 + install_budget(ms) <= buffer@.len(),
        decreases ms.len() - k,
    {
        if repeats_earlier_exec(mappings, k) {
            proof {
                let j = choose|j: int| 0 <= j < k && #[trigger] ms[j] == ms[k as int];
                lemma_budget_prefix(ms, k as int);
                assert forall|q: int| 0 <= q < k + 1 implies pages_cover(table.pages@, #[trigger] ms[q], ms[q].size as int) by {
                    if q == k {
                        assert(ms[q] == ms[j]);
                    }
                }
                assert forall|g: int| #[trigger] table.leaves@.contains(g) implies exists|q: int|
                    0 <= q < k + 1 && region_within(g, (#[trigger] ms[q]).guest_phys.0 as int, ms[q].size as int) by {
                    let q = choose|q: int| 0 <= q < k && region_within(g, (#[trigger] ms[q]).guest_phys.0 as int, ms[q].size as int);
                    assert(0 <= q < k + 1);
                }
                assert forall|p: int| #[trigger] table.pages@.dom().contains(p) implies exists|q: int|
                    0 <= q < k + 1 && (#[trigger] ms[q]).guest_phys.0 <= p * 4096 < ms[q].guest_phys.0 + ms[q].size by {
                    let q = choose|q: int|
                        0 <= q < k && (#[trigger] ms[q]).guest_phys.0 <= p * 4096 < ms[q].guest_phys.0 + ms[q].size;
                    assert(0 <= q < k + 1);
                }
                if forall|q: int| 0 <= q < k + 1 ==> (#[trigger] ms[q]).size == 0 {
                    assert(ms[j].size == 0);
                }
                if exists|q: int| 0 <= q < k + 1 && (#[trigger] ms[q]).size > 0 {
                    let q = choose|q: int| 0 <= q < k + 1 && (#[trigger] ms[q]).size > 0;
                    if q == k {
                        assert(ms[j].size > 0);
                    }
                }
            }
            k = k + 1;
            continue;
        }
        proof {
            assert forall|q: int| 0 <= q < k implies !#[trigger] ranges_overlap(
                ms[q].guest_phys.0 as int,
                ms[q].size as int,
                ms[k as int].guest_phys.0 as int,
                ms[k as int].size as int,
            ) by {
                if ranges_overlap(ms[q].guest_phys.0 as int, ms[q].size as int, ms[k as int].guest_phys.0 as int, ms[k as int].size as int) {
                    assert(ms[q] == ms[k as int]);
                    assert(repeats_earlier(ms, k as int));
                }
            }
        }
        proof {
            assert forall|g: int| #[trigger] table.leaves@.contains(g) implies region_disjoint(
                g,
                ms[k as int].guest_phys.0 as int,
                ms[k as int].size as int,
            ) by {
                let q = choose|q: int| 0 <= q < k && region_within(g, (#[trigger] ms[q]).guest_phys.0 as int, ms[q].size as int);
                assert(!ranges_overlap(
                    ms[q].guest_phys.0 as int,
                    ms[q].size as int,
                    ms[k as int].guest_phys.0 as int,
                    ms[k as int].size as int,
                ));
            }
        }
        proof {
            assert forall|p: int| #[trigger] table.pages@.dom().contains(p) implies !(ms[k as int].guest_phys.0 <= p
                * 4096 < ms[k as int].guest_phys.0 + ms[k as int].size) by {
                let q = choose|q: int|
                    0 <= q < k && (#[trigger] ms[q]).guest_phys.0 <= p * 4096 < ms[q].guest_phys.0 + ms[q].size;
                assert(!ranges_overlap(
                    ms[q].guest_phys.0 as int,
                    ms[q].size as int,
                    ms[k as int].guest_phys.0 as int,
                    ms[k as int].size as int,
                ));
            }
        }
        proof {
            lemma_budget_prefix(ms, k as int);
            if mappings_installable(ms, old(buffer)@.len() as int) {
                assert(range_fits(table, buffer@.len() as int, ms[k as int]));
            }
        }
        let ghost before_leaves = table.leaves@;
        let ghost before_root = table.root_offset;
        let ghost before_pages = table.pages@;
        let res = table.map_range(buffer, &mappings[k]);
        match res {
            Ok(()) => {},
            Err(e) => {
                proof {
                    if e == EptPlanError::Overflow {
                        assert(ms[k as int].host_phys.0 + ms[k as int].size > u64::MAX);
                    }
                    if e == EptPlanError::MisalignedMapping {
                        assert(ms[k as int].size > 0);
                    }
                }
                return Err(e);
            },
        }
        proof {
            assert forall|g: int| #[trigger] table.leaves@.contains(g) implies exists|q: int|
                0 <= q < k + 1 && region_within(g, (#[trigger] ms[q]).guest_phys.0 as int, ms[q].size as int) by {
                if before_leaves.contains(g) {
                    let q = choose|q: int| 0 <= q < k && region_within(g, (#[trigger] ms[q]).guest_phys.0 as int, ms[q].size as int);
                    assert(0 <= q < k + 1 && region_within(g, ms[q].guest_phys.0 as int, ms[q].size as int));
                } else {
                    assert(region_within(g, ms[k as int].guest_phys.0 as int, ms[k as int].size as int));
                }
            }
            if ms[k as int].size > 0 {
                assert(table.root_offset is Some);
            }
            assert forall|p: int| #[trigger] table.pages@.dom().contains(p) implies exists|q: int|
                0 <= q < k + 1 && (#[trigger] ms[q]).guest_phys.0 <= p * 4096 < ms[q].guest_phys.0 + ms[q].size by {
                if before_pages.dom().contains(p) {
                    let q = choose|q: int|
                        0 <= q < k && (#[trigger] ms[q]).guest_phys.0 <= p * 4096 < ms[q].guest_phys.0 + ms[q].size;
                    assert(0 <= q < k + 1);
                } else {
                    assert(ms[k as int].guest_phys.0 <= p * 4096 < ms[k as int].guest_phys.0 + ms[k as int].size);
                }
            }
            assert forall|q: int| 0 <= q < k + 1 implies pages_cover(table.pages@, #[trigger] ms[q], ms[q].size as int) by {
                if q < k {
                    lemma_cover_grows(before_pages, table.pages@, ms[q], ms[q].size as int);
                }
            }
            if forall|q: int| 0 <= q < k + 1 ==> (#[trigger] ms[q]).size == 0 {
                assert(ms[k as int].size == 0);
            }
        }
        k = k + 1;
    }
    assert(ms.take(ms.len() as int) =~= ms);
    let (_, root_hpa) = table.root()?;
    proof {
        lemma_isolation(table, buffer@, ms);
        assert forall|q: int, gpa: u64|
            #![trigger ms[q], ept_walk(buffer@, buffer_hpa.0, gpa)]
            0 <= q < ms.len() && mapping_perm_bits(ms[q]) != 0 && ms[q].guest_phys.0 <= gpa < ms[q].guest_phys.0
                + ms[q].size implies walk_maps(ept_walk(buffer@, buffer_hpa.0, gpa), ms[q], gpa) by {
            lemma_installed_translation(table, buffer@, ms[q], gpa);
        }
    }
    Ok(EptInstallResult { root_hpa, bytes_used: table.cursor })
}

} // verus!
