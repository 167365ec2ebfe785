//! Slotted heap pages: tuples grow up from the header, the slot directory
//! grows down from the end of the page.
use vstd::prelude::*;
use crate::bytes::{u16_at, u64_at, put_u16, lemma_put_u16};
use crate::error::DbError;
use crate::page::{
    Page, PageHeader, PAGE_SIZE, HEADER_LEN, lower_of, upper_of, checksum_ok, lemma_with_checksum,
    lemma_put_header, header_matches,
};
use crate::page_id::{PageFlags, PageId};
use crate::slot::Slot;

verus! {

/// Byte position of the directory entry of slot `i`.
pub open spec fn slot_pos(i: int) -> int {
    PAGE_SIZE - 4 * (i + 1)
}

pub open spec fn slot_off(b: Seq<u8>, i: int) -> int {
    u16_at(b, slot_pos(i))
}

pub open spec fn slot_len(b: Seq<u8>, i: int) -> int {
    u16_at(b, slot_pos(i) + 2)
}

/// Number of directory entries: the bytes between `upper` and the end of the
/// page, four per entry.
pub open spec fn slot_count_of(b: Seq<u8>) -> int {
    if upper_of(b) <= PAGE_SIZE {
        (PAGE_SIZE - upper_of(b)) / 4
    } else {
        0
    }
}

/// The tuple that slot `i` designates, if the slot exists, is live, and
/// points inside the page.
pub open spec fn tuple_at(b: Seq<u8>, i: int) -> Option<Seq<u8>> {
    if 0 <= i < slot_count_of(b) && slot_len(b, i) > 0 && slot_off(b, i) + slot_len(b, i)
        <= PAGE_SIZE {
        Some(b.subrange(slot_off(b, i), slot_off(b, i) + slot_len(b, i)))
    } else {
        None
    }
}

/// The tuples of a page, by slot number; `None` marks a tombstone.
pub open spec fn tuples_of(b: Seq<u8>) -> Seq<Option<Seq<u8>>> {
    Seq::new(slot_count_of(b) as nat, |i: int| tuple_at(b, i))
}

/// Total length of the live tuples among the first `k` slots.
pub open spec fn live_bytes(b: Seq<u8>, k: int) -> int
    decreases k,
{
    if k <= 0 {
        0
    } else if slot_len(b, k - 1) > 0 {
        live_bytes(b, k - 1) + slot_len(b, k - 1)
    } else {
        live_bytes(b, k - 1)
    }
}

/// The slotted layout: `32 <= lower <= upper <= PAGE_SIZE`, the directory
/// made of whole entries, every live tuple inside `[32, lower)`, and live
/// tuples stored in slot order without overlap.
pub open spec fn heap_wf(b: Seq<u8>) -> bool {
    &&& b.len() == PAGE_SIZE
    &&& HEADER_LEN <= lower_of(b) <= upper_of(b) <= PAGE_SIZE
    &&& (PAGE_SIZE - upper_of(b)) % 4 == 0
    &&& forall|i: int|
        0 <= i < slot_count_of(b) && slot_len(b, i) > 0 ==> HEADER_LEN <= slot_off(b, i) && slot_off(b, i)
            + slot_len(b, i) <= lower_of(b)
    &&& forall|i: int, j: int|
        0 <= i < j < slot_count_of(b) && slot_len(b, i) > 0 && slot_len(b, j) > 0 ==> slot_off(b, i)
            + slot_len(b, i) <= slot_off(b, j)
}

/// Bytes of the tuple area that no live tuple uses: those of deleted
/// tuples not yet reclaimed by compaction.
pub open spec fn dead_bytes(b: Seq<u8>) -> int {
    lower_of(b) - HEADER_LEN - live_bytes(b, slot_count_of(b))
}

/// Pages whose first `k` slots have the same lengths have the same live
/// bytes there.
pub proof fn lemma_live_bytes_frame(b1: Seq<u8>, b2: Seq<u8>, k: int)
    requires
        forall|i: int| 0 <= i < k ==> slot_len(b1, i) == slot_len(b2, i),
    ensures
        live_bytes(b1, k) == live_bytes(b2, k),
    decreases k,
{
    if k > 0 {
        lemma_live_bytes_frame(b1, b2, k - 1);
    }
}

/// Emptying slot `s` takes its length off the live bytes.
pub proof fn lemma_live_bytes_drop(b1: Seq<u8>, b2: Seq<u8>, s: int, k: int)
    requires
        0 <= s,
        slot_len(b2, s) == 0,
        forall|i: int| 0 <= i < k && i != s ==> slot_len(b1, i) == slot_len(b2, i),
    ensures
        live_bytes(b2, k) == live_bytes(b1, k) - (if s < k && slot_len(b1, s) > 0 {
            slot_len(b1, s)
        } else {
            0
        }),
    decreases k,
{
    if k > 0 {
        lemma_live_bytes_drop(b1, b2, s, k - 1);
    }
}

/// The live tuples before slot `k` fit in front of every later live tuple
/// and inside the tuple area.
pub proof fn lemma_live_bytes_fit(b: Seq<u8>, k: int)
    requires
        heap_wf(b),
        0 <= k <= slot_count_of(b),
    ensures
        HEADER_LEN + live_bytes(b, k) <= lower_of(b),
        forall|j: int|
            k <= j < slot_count_of(b) && slot_len(b, j) > 0 ==> HEADER_LEN + live_bytes(b, k) <= slot_off(b, j),
    decreases k,
{
    if k > 0 {
        lemma_live_bytes_fit(b, k - 1);
    }
}

/// `live_bytes` is never negative.
pub proof fn lemma_live_bytes_nonneg(b: Seq<u8>, k: int)
    ensures
        0 <= live_bytes(b, k),
    decreases k,
{
    if k > 0 {
        lemma_live_bytes_nonneg(b, k - 1);
    }
}

/// `live_bytes` only grows with the number of slots counted.
pub proof fn lemma_live_bytes_mono(b: Seq<u8>, i: int, j: int)
    requires
        0 <= i <= j,
    ensures
        0 <= live_bytes(b, i) <= live_bytes(b, j),
    decreases j - i,
{
    if i < j {
        lemma_live_bytes_mono(b, i, j - 1);
    } else {
        lemma_live_bytes_nonneg(b, i);
    }
}

/// A slot whose directory entry and tuple-area bytes are unchanged still
/// designates the same tuple.
pub proof fn lemma_tuple_frame(b0: Seq<u8>, b: Seq<u8>, i: int)
    requires
        heap_wf(b0),
        b.len() == PAGE_SIZE,
        0 <= i < slot_count_of(b0),
        i < slot_count_of(b),
        slot_off(b, i) == slot_off(b0, i),
        slot_len(b, i) == slot_len(b0, i),
        forall|j: int| HEADER_LEN <= j < lower_of(b0) ==> b[j] == b0[j],
    ensures
        tuple_at(b, i) == tuple_at(b0, i),
{
    if slot_len(b0, i) > 0 {
        assert(b.subrange(slot_off(b, i), slot_off(b, i) + slot_len(b, i)) =~= b0.subrange(
            slot_off(b0, i),
            slot_off(b0, i) + slot_len(b0, i),
        ));
    }
}

/// The bytes after an append: the tuple copied to `[off, off + len)` where
/// `off` was `lower`, `lower` and `upper` moved, and a new directory entry
/// just below the old `upper`.
proof fn lemma_insert_layout(b0: Seq<u8>, b4: Seq<u8>, off: int, t: Seq<u8>)
    requires
        heap_wf(b0),
        b4.len() == PAGE_SIZE,
        off == lower_of(b0),
        off + t.len() + 4 <= upper_of(b0),
        forall|j: int|
            HEADER_LEN <= j < PAGE_SIZE && !(off <= j < off + t.len()) && !(upper_of(b0) - 4 <= j
                < upper_of(b0)) ==> b4[j] == b0[j],
        forall|j: int| 0 <= j < t.len() ==> b4[off + j] == t[j],
        lower_of(b4) == off + t.len(),
        upper_of(b4) == upper_of(b0) - 4,
        slot_off(b4, slot_count_of(b0)) == off,
        slot_len(b4, slot_count_of(b0)) == t.len(),
    ensures
        heap_wf(b4),
        tuples_of(b4) == tuples_of(b0).push(
            if t.len() > 0 {
                Some(t)
            } else {
                None
            },
        ),
        b4.subrange(off, off + t.len()) == t,
        dead_bytes(b4) == dead_bytes(b0),
{
    let n = slot_count_of(b0);
    let upper0 = upper_of(b0);
    assert(slot_pos(n) == upper0 - 4);
    assert(slot_count_of(b4) == n + 1);
    assert forall|i: int| 0 <= i < n implies slot_off(b4, i) == slot_off(b0, i) && slot_len(b4, i)
        == slot_len(b0, i) by {
        assert(slot_pos(i) >= upper0);
    }
    assert forall|i: int| 0 <= i < n implies tuple_at(b4, i) == tuple_at(b0, i) by {
        lemma_tuple_frame(b0, b4, i);
    }
    assert(b4.subrange(off, off + t.len()) =~= t);
    lemma_live_bytes_frame(b0, b4, n);
    assert(tuples_of(b4) =~= tuples_of(b0).push(
        if t.len() > 0 {
            Some(t)
        } else {
            None
        },
    ));
}

/// The bytes after compaction: live tuples packed in slot order from the
/// header on, their directory entries pointing there.
#[verifier::rlimit(60)]
proof fn lemma_compact_layout(b0: Seq<u8>, b1: Seq<u8>, b4: Seq<u8>, scratch: Seq<u8>)
    requires
        heap_wf(b0),
        b1.len() == PAGE_SIZE,
        b4.len() == PAGE_SIZE,
        scratch.len() == PAGE_SIZE - HEADER_LEN,
        HEADER_LEN + live_bytes(b0, slot_count_of(b0)) <= lower_of(b0),
        lower_of(b4) == HEADER_LEN + live_bytes(b0, slot_count_of(b0)),
        upper_of(b4) == upper_of(b0),
        u64_at(b4, 4) == u64_at(b0, 4),
        forall|j: int| lower_of(b4) <= j < PAGE_SIZE ==> b4[j] == b1[j],
        b4.subrange(HEADER_LEN as int, lower_of(b4)) == scratch.subrange(0, lower_of(b4) - HEADER_LEN),
        forall|k: int|
            0 <= k < slot_count_of(b0) ==> slot_len(b1, k) == slot_len(b0, k) && (slot_len(b0, k) > 0
                ==> slot_off(b1, k) == HEADER_LEN + live_bytes(b0, k)) && (slot_len(b0, k) == 0
                ==> slot_off(b1, k) == slot_off(b0, k)),
        forall|k: int|
            0 <= k < slot_count_of(b0) && slot_len(b0, k) > 0 ==> scratch.subrange(
                live_bytes(b0, k),
                live_bytes(b0, k + 1),
            ) == b0.subrange(slot_off(b0, k), slot_off(b0, k) + slot_len(b0, k)),
    ensures
        heap_wf(b4),
        tuples_of(b4) == tuples_of(b0),
        dead_bytes(b4) == 0,
{
    let n = slot_count_of(b0);
    let lw = lower_of(b4);
    assert(slot_count_of(b4) == n);
    assert forall|k: int| 0 <= k < n implies slot_off(b4, k) == slot_off(b1, k) && slot_len(b4, k)
        == slot_len(b1, k) by {
        assert(slot_pos(k) >= upper_of(b0));
    }
    lemma_live_bytes_nonneg(b0, n);
    assert forall|k: int| 0 <= k < n && slot_len(b4, k) > 0 implies HEADER_LEN <= slot_off(b4, k)
        && slot_off(b4, k) + slot_len(b4, k) <= lw by {
        lemma_live_bytes_mono(b0, k + 1, n);
        lemma_live_bytes_mono(b0, k, k + 1);
    }
    assert forall|i: int, j: int|
        0 <= i < j < n && slot_len(b4, i) > 0 && slot_len(b4, j) > 0 implies slot_off(b4, i)
        + slot_len(b4, i) <= slot_off(b4, j) by {
        lemma_live_bytes_mono(b0, i + 1, j);
    }
    assert forall|k: int| 0 <= k < n implies tuple_at(b4, k) == tuple_at(b0, k) by {
        if slot_len(b0, k) > 0 {
            lemma_live_bytes_mono(b0, k + 1, n);
            lemma_live_bytes_mono(b0, k, k + 1);
            let lo = live_bytes(b0, k);
            let hi = live_bytes(b0, k + 1);
            assert(b4.subrange(HEADER_LEN + lo, HEADER_LEN + hi) =~= b4.subrange(
                HEADER_LEN as int,
                lw,
            ).subrange(lo, hi));
            assert(scratch.subrange(lo, hi) =~= scratch.subrange(0, lw - HEADER_LEN).subrange(lo, hi));
        }
    }
    assert(tuples_of(b4) =~= tuples_of(b0));
    lemma_live_bytes_frame(b0, b4, n);
}

/// Copies `src[from, from + len)` over `dst[at, at + len)`.
fn copy_range(dst: &mut Vec<u8>, at: usize, src: &[u8], from: usize, len: usize)
    requires
        at + len <= old(dst)@.len(),
        from + len <= src@.len(),
    ensures
        final(dst)@.len() == old(dst)@.len(),
        final(dst)@.subrange(at as int, at + len) == src@.subrange(from as int, from + len),
        forall|j: int|
            0 <= j < old(dst)@.len() && !(at <= j < at + len) ==> final(dst)@[j] == old(dst)@[j],
{
    let _dst_len = dst.len();
    let _src_len = src.len();
    let mut k: usize = 0;
    while k < len
        invariant
            at + len <= usize::MAX,
            from + len <= usize::MAX,
            k <= len,
            at + len <= dst@.len(),
            from + len <= src@.len(),
            dst@.len() == old(dst)@.len(),
            forall|j: int| at <= j < at + k ==> dst@[j] == src@[from + j - at],
            forall|j: int|
                0 <= j < old(dst)@.len() && !(at <= j < at + k) ==> dst@[j] == old(dst)@[j],
        decreases len - k,
    {
        dst.set(at + k, src[from + k]);
        k += 1;
    }
    assert(dst@.subrange(at as int, at + len) =~= src@.subrange(from as int, from + len));
}

/// After the first `k` of a run of inserts, the page holds exactly the first
/// `k` tuples, in slots `0 .. k`.
proof fn lemma_inserts_prefix(states: Seq<Seq<Option<Seq<u8>>>>, ts: Seq<Seq<u8>>, k: int)
    requires
        states.len() == ts.len() + 1,
        states[0] == Seq::<Option<Seq<u8>>>::empty(),
        forall|i: int| 0 <= i < ts.len() ==> (#[trigger] ts[i]).len() > 0,
        forall|i: int|
            1 <= i <= ts.len() ==> (#[trigger] states[i]) == states[i - 1].push(Some(ts[i - 1])),
        0 <= k <= ts.len(),
    ensures
        states[k] == Seq::new(k as nat, |i: int| Some(ts[i])),
    decreases k,
{
    if k == 0 {
        assert(states[k] =~= Seq::new(k as nat, |i: int| Some(ts[i])));
    } else {
        lemma_inserts_prefix(states, ts, k - 1);
        assert(states[k] == states[k - 1].push(Some(ts[k - 1])));
        assert(states[k] =~= Seq::new(k as nat, |i: int| Some(ts[i])));
    }
}

/// A heap page: a page laid out as a slotted tuple store.
#[derive(Clone, Debug)]
pub struct HeapPage {
    pub page: Page,
}

impl View for HeapPage {
    type V = Seq<Option<Seq<u8>>>;

    open spec fn view(&self) -> Seq<Option<Seq<u8>>> {
        tuples_of(self.page.buf@)
    }
}

impl HeapPage {
    /// The page has the slotted layout.
    pub open spec fn wf(&self) -> bool {
        heap_wf(self.page.buf@)
    }

    pub open spec fn spec_free_space(&self) -> int {
        upper_of(self.page.buf@) - lower_of(self.page.buf@)
    }

    pub open spec fn spec_dead_bytes(&self) -> int {
        dead_bytes(self.page.buf@)
    }

    pub open spec fn spec_page_id(&self) -> int {
        u64_at(self.page.buf@, 4)
    }

    /// An empty heap page with a valid checksum.
    pub fn new_empty(pid: PageId) -> (r: HeapPage)
        ensures
            r.wf(),
            r@ == Seq::<Option<Seq<u8>>>::empty(),
            r.spec_free_space() == PAGE_SIZE - HEADER_LEN,
            r.spec_page_id() == pid.0,
            u16_at(r.page.buf@, 20) == PageFlags::Heap.spec_bits(),
            u64_at(r.page.buf@, 12) == 0,
            lower_of(r.page.buf@) == HEADER_LEN,
            upper_of(r.page.buf@) == PAGE_SIZE,
            r.spec_dead_bytes() == 0,
            checksum_ok(r.page.buf@),
    {
        let pg = Page::new(pid, PageFlags::Heap);
        let r = HeapPage { page: pg };
        assert(r@ =~= Seq::<Option<Seq<u8>>>::empty());
        r
    }

    /// Number of directory entries, live or not.
    pub fn slot_count(&self) -> (r: usize)
        requires
            self.page.wf(),
        ensures
            r == slot_count_of(self.page.buf@),
            r == self@.len(),
    {
        let upper = self.page.read_u16(24) as usize;
        if upper <= PAGE_SIZE {
            (PAGE_SIZE - upper) / Slot::SIZE
        } else {
            0
        }
    }

    fn read_slot(&self, slot_no: usize) -> (r: Slot)
        requires
            self.page.wf(),
            slot_no < slot_count_of(self.page.buf@),
        ensures
            r.off == slot_off(self.page.buf@, slot_no as int),
            r.len == slot_len(self.page.buf@, slot_no as int),
    {
        let base = PAGE_SIZE - (slot_no + 1) * Slot::SIZE;
        let off = self.page.read_u16(base);
        let len = self.page.read_u16(base + 2);
        Slot { off, len }
    }

    fn write_slot(&mut self, slot_no: usize, slot: Slot)
        requires
            old(self).page.wf(),
            slot_no < PAGE_SIZE / 4,
        ensures
            final(self).page.wf(),
            final(self).page.buf@ == put_u16(
                put_u16(old(self).page.buf@, slot_pos(slot_no as int), slot.off as int),
                slot_pos(slot_no as int) + 2,
                slot.len as int,
            ),
            slot_off(final(self).page.buf@, slot_no as int) == slot.off,
            slot_len(final(self).page.buf@, slot_no as int) == slot.len,
            forall|j: int|
                0 <= j < PAGE_SIZE && !(slot_pos(slot_no as int) <= j < slot_pos(slot_no as int) + 4)
                    ==> final(self).page.buf@[j] == old(self).page.buf@[j],
    {
        let base = PAGE_SIZE - (slot_no + 1) * Slot::SIZE;
        self.page.write_u16(base, slot.off);
        self.page.write_u16(base + 2, slot.len);
    }

    /// Appends a tuple: its bytes go to the start of the free area and a new
    /// slot, numbered after all existing ones, points to them. Fails with
    /// `OutOfSpace` when the tuple and its slot do not fit.
    pub fn insert_tuple(&mut self, tuple: &[u8]) -> (r: Result<usize, DbError>)
        requires
            old(self).wf(),
        ensures
            final(self).wf(),
            final(self).spec_page_id() == old(self).spec_page_id(),
            tuple@.len() + 4 > old(self).spec_free_space() ==> r == Err::<usize, DbError>(
                DbError::OutOfSpace,
            ) && *final(self) == *old(self),
            tuple@.len() + 4 <= old(self).spec_free_space() ==> {
                &&& r == Ok::<usize, DbError>(old(self)@.len() as usize)
                &&& final(self)@ == old(self)@.push(
                    if tuple@.len() > 0 {
                        Some(tuple@)
                    } else {
                        None
                    },
                )
                &&& final(self).spec_free_space() == old(self).spec_free_space() - tuple@.len() - 4
                &&& lower_of(final(self).page.buf@) == lower_of(old(self).page.buf@) + tuple@.len()
                &&& upper_of(final(self).page.buf@) == upper_of(old(self).page.buf@) - 4
                &&& final(self).page.buf@.subrange(
                    lower_of(old(self).page.buf@),
                    lower_of(old(self).page.buf@) + tuple@.len(),
                ) == tuple@
                &&& slot_off(final(self).page.buf@, old(self)@.len() as int) == lower_of(
                    old(self).page.buf@,
                )
                &&& slot_len(final(self).page.buf@, old(self)@.len() as int) == tuple@.len()
                &&& final(self).spec_dead_bytes() == old(self).spec_dead_bytes()
                &&& checksum_ok(final(self).page.buf@)
            },
    {
        let free = self.page.free_space();
        if tuple.len() > free || free - tuple.len() < Slot::SIZE {
            return Err(DbError::OutOfSpace);
        }
        let mut hdr = self.page.header();
        let slot_no = self.slot_count();
        let off = hdr.lower as usize;
        let len = tuple.len();
        let ghost b0 = self.page.buf@;
        let mut k: usize = 0;
        while k < len
            invariant
                self.page.wf(),
                k <= len,
                len == tuple@.len(),
                off == lower_of(b0),
                off + len + 4 <= upper_of(b0),
                b0.len() == PAGE_SIZE,
                upper_of(b0) <= PAGE_SIZE,
                forall|j: int|
                    0 <= j < PAGE_SIZE && !(off <= j < off + k) ==> self.page.buf@[j] == b0[j],
                forall|j: int| 0 <= j < k ==> self.page.buf@[off + j] == tuple@[j],
            decreases len - k,
        {
            self.page.buf.set(off + k, tuple[k]);
            k += 1;
        }
        let ghost b1 = self.page.buf@;
        assert(forall|j: int| 0 <= j < HEADER_LEN ==> b1[j] == b0[j]);
        hdr.lower = (off + len) as u16;
        hdr.upper = hdr.upper - 4;
        self.page.write_header(&hdr);
        let ghost b2 = self.page.buf@;
        self.write_slot(slot_no, Slot { off: off as u16, len: len as u16 });
        let ghost b3 = self.page.buf@;
        self.page.recompute_checksum();
        let ghost b4 = self.page.buf@;
        proof {
            assert(forall|j: int| HEADER_LEN <= j < PAGE_SIZE ==> b2[j] == b1[j]);
            lemma_insert_layout(b0, b4, off as int, tuple@);
        }
        Ok(slot_no)
    }

    /// Turns slot `slot_no` into a tombstone, keeping its number. Fails with
    /// `OutOfRange` for a slot beyond the directory.
    pub fn delete_tuple(&mut self, slot_no: usize) -> (r: Result<(), DbError>)
        requires
            old(self).wf(),
        ensures
            final(self).wf(),
            final(self).spec_page_id() == old(self).spec_page_id(),
            final(self).spec_free_space() == old(self).spec_free_space(),
            slot_no >= old(self)@.len() ==> r == Err::<(), DbError>(DbError::OutOfRange) && *final(self)
                == *old(self),
            slot_no < old(self)@.len() ==> r == Ok::<(), DbError>(()) && final(self)@ == old(
                self,
            )@.update(slot_no as int, None),
            slot_no < old(self)@.len() ==> {
                &&& slot_off(final(self).page.buf@, slot_no as int) == slot_off(
                    old(self).page.buf@,
                    slot_no as int,
                )
                &&& slot_len(final(self).page.buf@, slot_no as int) == 0
                &&& final(self).spec_dead_bytes() == old(self).spec_dead_bytes() + slot_len(
                    old(self).page.buf@,
                    slot_no as int,
                )
            },
            slot_no < old(self)@.len() && slot_len(old(self).page.buf@, slot_no as int) == 0
                ==> *final(self) == *old(self),
            slot_no < old(self)@.len() && slot_len(old(self).page.buf@, slot_no as int) > 0 ==> {
                &&& checksum_ok(final(self).page.buf@)
                &&& final(self).spec_dead_bytes() > 0
            },
            checksum_ok(old(self).page.buf@) ==> checksum_ok(final(self).page.buf@),
    {
        if slot_no >= self.slot_count() {
            return Err(DbError::OutOfRange);
        }
        let slot = self.read_slot(slot_no);
        if slot.len == 0 {
            assert(self@ =~= self@.update(slot_no as int, None));
            return Ok(());
        }
        let ghost b0 = self.page.buf@;
        self.write_slot(slot_no, Slot::tombstone(slot.off));
        self.page.recompute_checksum();
        let ghost b = self.page.buf@;
        proof {
            let s = slot_no as int;
            let n = slot_count_of(b0);
            assert(forall|j: int|
                4 <= j < PAGE_SIZE && !(slot_pos(s) <= j < slot_pos(s) + 4) ==> b[j] == b0[j]);
            assert(slot_pos(s) >= upper_of(b0));
            assert(lower_of(b) == lower_of(b0));
            assert(upper_of(b) == upper_of(b0));
            assert(u64_at(b, 4) == u64_at(b0, 4));
            assert(slot_len(b, s) == 0);
            assert(slot_off(b, s) == slot_off(b0, s));
            assert forall|i: int| 0 <= i < n && i != s implies slot_off(b, i) == slot_off(b0, i)
                && slot_len(b, i) == slot_len(b0, i) by {
                assert(slot_pos(i) + 4 <= slot_pos(s) || slot_pos(s) + 4 <= slot_pos(i));
            }
            assert forall|i: int| 0 <= i < n && i != s implies tuple_at(b, i) == tuple_at(b0, i) by {
                lemma_tuple_frame(b0, b, i);
            }
            assert(tuples_of(b) =~= tuples_of(b0).update(s, None));
            lemma_live_bytes_drop(b0, b, s, n);
            lemma_live_bytes_fit(b0, n);
        }
        Ok(())
    }

    /// Moves the live tuples, in slot order, to the start of the tuple area,
    /// so that the space of deleted tuples becomes free. Slot numbers and
    /// tuple contents are unchanged.
    pub fn compact(&mut self)
        requires
            old(self).wf(),
        ensures
            final(self).wf(),
            final(self)@ == old(self)@,
            final(self).spec_page_id() == old(self).spec_page_id(),
            lower_of(final(self).page.buf@) == HEADER_LEN + live_bytes(
                old(self).page.buf@,
                old(self)@.len() as int,
            ),
            upper_of(final(self).page.buf@) == upper_of(old(self).page.buf@),
            checksum_ok(final(self).page.buf@),
            final(self).spec_free_space() >= old(self).spec_free_space(),
            final(self).spec_dead_bytes() == 0,
            final(self).spec_free_space() == old(self).spec_free_space() + old(self).spec_dead_bytes(),
            old(self).spec_dead_bytes() > 0 ==> final(self).spec_free_space() > old(
                self,
            ).spec_free_space(),
    {
        let mut hdr = self.page.header();
        let slots = self.slot_count();
        let ghost b0 = self.page.buf@;
        proof {
            lemma_live_bytes_fit(b0, slots as int);
        }
        let area: usize = PAGE_SIZE - HEADER_LEN;
        let mut scratch: Vec<u8> = vec![0u8; area];
        let mut lower: usize = HEADER_LEN;
        let mut i: usize = 0;
        while i < slots
            invariant
                heap_wf(b0),
                header_matches(b0, hdr),
                slots == slot_count_of(b0),
                i <= slots,
                self.page.wf(),
                scratch@.len() == PAGE_SIZE - HEADER_LEN,
                lower == HEADER_LEN + live_bytes(b0, i as int),
                HEADER_LEN + live_bytes(b0, slots as int) <= lower_of(b0),
                forall|j: int| 0 <= j < upper_of(b0) ==> self.page.buf@[j] == b0[j],
                forall|k: int|
                    i <= k < slots ==> slot_off(self.page.buf@, k) == slot_off(b0, k) && slot_len(
                        self.page.buf@,
                        k,
                    ) == slot_len(b0, k),
                forall|k: int|
                    0 <= k < i ==> slot_len(self.page.buf@, k) == slot_len(b0, k) && (slot_len(b0, k)
                        > 0 ==> slot_off(self.page.buf@, k) == HEADER_LEN + live_bytes(b0, k)) && (
                    slot_len(b0, k) == 0 ==> slot_off(self.page.buf@, k) == slot_off(b0, k)),
                forall|k: int|
                    0 <= k < i && slot_len(b0, k) > 0 ==> scratch@.subrange(
                        live_bytes(b0, k),
                        live_bytes(b0, k + 1),
                    ) == b0.subrange(slot_off(b0, k), slot_off(b0, k) + slot_len(b0, k)),
            decreases slots - i,
        {
            let s = self.read_slot(i);
            proof {
                lemma_live_bytes_mono(b0, i as int + 1, slots as int);
                lemma_live_bytes_mono(b0, i as int, i as int + 1);
            }
            if s.len != 0 {
                let ghost sc0 = scratch@;
                let ghost bb = self.page.buf@;
                copy_range(
                    &mut scratch,
                    lower - HEADER_LEN,
                    self.page.buf.as_slice(),
                    s.off as usize,
                    s.len as usize,
                );
                proof {
                    assert(bb.subrange(s.off as int, s.off + s.len) =~= b0.subrange(
                        s.off as int,
                        s.off + s.len,
                    ));
                    assert forall|k: int| 0 <= k < i && slot_len(b0, k) > 0 implies scratch@.subrange(
                        live_bytes(b0, k),
                        live_bytes(b0, k + 1),
                    ) == b0.subrange(slot_off(b0, k), slot_off(b0, k) + slot_len(b0, k)) by {
                        lemma_live_bytes_mono(b0, k + 1, i as int);
                        lemma_live_bytes_mono(b0, k, k + 1);
                        assert(scratch@.subrange(live_bytes(b0, k), live_bytes(b0, k + 1))
                            =~= sc0.subrange(live_bytes(b0, k), live_bytes(b0, k + 1)));
                    }
                }
                let ghost bw = self.page.buf@;
                self.write_slot(i, Slot { off: lower as u16, len: s.len });
                proof {
                    assert(slot_pos(i as int) >= upper_of(b0));
                    assert forall|k: int| 0 <= k < slots && k != i implies slot_off(
                        self.page.buf@,
                        k,
                    ) == slot_off(bw, k) && slot_len(self.page.buf@, k) == slot_len(bw, k) by {
                        assert(slot_pos(k) + 4 <= slot_pos(i as int) || slot_pos(i as int) + 4
                            <= slot_pos(k));
                    }
                }
                lower = lower + s.len as usize;
            }
            i += 1;
        }
        let ghost b1 = self.page.buf@;
        proof {
            lemma_live_bytes_nonneg(b0, slots as int);
        }
        copy_range(&mut self.page.buf, HEADER_LEN, scratch.as_slice(), 0, lower - HEADER_LEN);
        let ghost b2 = self.page.buf@;
        hdr.lower = lower as u16;
        self.page.write_header(&hdr);
        let ghost b3 = self.page.buf@;
        self.page.recompute_checksum();
        let ghost b4 = self.page.buf@;
        proof {
            assert(forall|j: int| HEADER_LEN <= j < PAGE_SIZE ==> b4[j] == b2[j]);
            assert(forall|j: int| lower <= j < PAGE_SIZE ==> b4[j] == b1[j]);
            assert(b4.subrange(HEADER_LEN as int, lower as int) =~= scratch@.subrange(
                0,
                lower - HEADER_LEN,
            ));
            lemma_compact_layout(b0, b1, b4, scratch@);
        }
    }

    /// The bytes of the tuple in slot `slot_no`, or `None` for a slot that
    /// does not exist or is a tombstone.
    pub fn read_tuple(&self, slot_no: usize) -> (r: Option<&[u8]>)
        requires
            self.page.wf(),
        ensures
            r matches Some(t) ==> tuple_at(self.page.buf@, slot_no as int) == Some(t@),
            r is None ==> tuple_at(self.page.buf@, slot_no as int) is None,
    {
        if slot_no >= self.slot_count() {
            return None;
        }
        let slot = self.read_slot(slot_no);
        if slot.len == 0 {
            return None;
        }
        let off = slot.off as usize;
        let len = slot.len as usize;
        if off + len > PAGE_SIZE {
            return None;
        }
        Some(&self.page.buf.as_slice()[off..off + len])
    }
}

/// Inserting non-empty tuples one after another into an empty heap page
/// numbers their slots 0, 1, 2, ... in call order, and `read_tuple` of each
/// slot then gives exactly the bytes inserted into it. `pages[k]` is the
/// page after `k` inserts and `slots[k]` what the `k + 1`-th insert
/// returned; each step is what `insert_tuple` promises on success.
pub proof fn lemma_inserts_in_order(pages: Seq<HeapPage>, slots: Seq<usize>, ts: Seq<Seq<u8>>)
    requires
        pages.len() == ts.len() + 1,
        slots.len() == ts.len(),
        pages[0]@ == Seq::<Option<Seq<u8>>>::empty(),
        forall|i: int| 0 <= i < ts.len() ==> (#[trigger] ts[i]).len() > 0,
        forall|i: int|
            1 <= i <= ts.len() ==> (#[trigger] pages[i])@ == pages[i - 1]@.push(Some(ts[i - 1]))
                && slots[i - 1] == pages[i - 1]@.len(),
    ensures
        forall|k: int| 0 <= k < ts.len() ==> #[trigger] slots[k] == k,
        forall|k: int|
            0 <= k < ts.len() ==> tuple_at(pages[ts.len() as int].page.buf@, k) == Some(
                #[trigger] ts[k],
            ),
{
    let states = pages.map_values(|h: HeapPage| h@);
    assert forall|i: int| 1 <= i <= ts.len() implies (#[trigger] states[i]) == states[i - 1].push(
        Some(ts[i - 1]),
    ) by {
        assert(pages[i]@ == pages[i - 1]@.push(Some(ts[i - 1])));
    }
    assert forall|k: int| 0 <= k < ts.len() implies #[trigger] slots[k] == k by {
        lemma_inserts_prefix(states, ts, k);
        assert(pages[k + 1]@ == pages[k]@.push(Some(ts[k])));
    }
    let n = ts.len() as int;
    lemma_inserts_prefix(states, ts, n);
    assert forall|k: int| 0 <= k < ts.len() implies tuple_at(pages[n].page.buf@, k) == Some(
        #[trigger] ts[k],
    ) by {
        assert(states[n] == pages[n]@);
        assert(pages[n]@.len() == n);
        assert(pages[n]@ == tuples_of(pages[n].page.buf@));
        assert(pages[n]@[k] == Some(ts[k]));
        assert(pages[n]@[k] == tuple_at(pages[n].page.buf@, k));
    }
}

} // verus!
