//! Fixed-size pages: a header, a CRC-32 checksum, and raw bytes.
use vstd::prelude::*;
use crate::bytes::{
    u16_at, u32_at, u64_at, put_u16, put_u32, put_u64, lemma_put_u16, lemma_put_u32,
    lemma_put_u64, read_u16_le, read_u32_le, read_u64_le, write_u16_le, write_u32_le,
    write_u64_le,
};
use crate::page_id::{PageFlags, PageId};

verus! {

/// Size of every page in bytes.
pub const PAGE_SIZE: usize = 8192;

/// Size of the page header in bytes.
pub const HEADER_LEN: usize = 32;

/// The CRC-32 (IEEE, as in zlib) of a byte sequence.
pub uninterp spec fn crc32_of(data: Seq<u8>) -> u32;

/// Relies on `crc32fast::hash`: the CRC-32 (IEEE) digest of the bytes,
/// which depends on the bytes alone.
#[verifier::external_body]
fn crc32(data: &[u8]) -> (r: u32)
    ensures
        r == crc32_of(data@),
{
    crc32fast::hash(data)
}

/// The checksum that belongs in bytes `[0, 4)`: the CRC-32 of `[4, PAGE_SIZE)`.
pub open spec fn checksum_of(b: Seq<u8>) -> u32 {
    crc32_of(b.subrange(4, PAGE_SIZE as int))
}

/// The stored checksum matches the page's contents.
pub open spec fn checksum_ok(b: Seq<u8>) -> bool {
    u32_at(b, 0) == checksum_of(b) as int
}

/// The page bytes with a freshly computed checksum stored in `[0, 4)`.
pub open spec fn with_checksum(b: Seq<u8>) -> Seq<u8> {
    put_u32(b, 0, checksum_of(b) as int)
}

pub open spec fn lower_of(b: Seq<u8>) -> int {
    u16_at(b, 22)
}

pub open spec fn upper_of(b: Seq<u8>) -> int {
    u16_at(b, 24)
}

/// The page bytes with the header `h` written into `[0, 32)`.
#[verifier::opaque]
pub open spec fn put_header(b: Seq<u8>, h: PageHeader) -> Seq<u8> {
    let b1 = put_u32(b, 0, h.checksum as int);
    let b2 = put_u64(b1, 4, h.page_id as int);
    let b3 = put_u64(b2, 12, h.page_lsn as int);
    let b4 = put_u16(b3, 20, h.page_flags as int);
    let b5 = put_u16(b4, 22, h.lower as int);
    let b6 = put_u16(b5, 24, h.upper as int);
    b6.update(26, h.reserved[0]).update(27, h.reserved[1]).update(28, h.reserved[2]).update(
        29,
        h.reserved[3],
    ).update(30, h.reserved[4]).update(31, h.reserved[5])
}

/// The header fields as they are encoded in `b`.
pub open spec fn header_matches(b: Seq<u8>, h: PageHeader) -> bool {
    &&& h.checksum as int == u32_at(b, 0)
    &&& h.page_id as int == u64_at(b, 4)
    &&& h.page_lsn as int == u64_at(b, 12)
    &&& h.page_flags as int == u16_at(b, 20)
    &&& h.lower as int == u16_at(b, 22)
    &&& h.upper as int == u16_at(b, 24)
    &&& forall|k: int| 0 <= k < 6 ==> h.reserved[k] == b[26 + k]
}

/// Writing a header changes only the first 32 bytes, which then hold it.
pub proof fn lemma_put_header(b: Seq<u8>, h: PageHeader)
    requires
        b.len() == PAGE_SIZE,
    ensures
        put_header(b, h).len() == PAGE_SIZE,
        header_matches(put_header(b, h), h),
        forall|j: int| HEADER_LEN <= j < PAGE_SIZE ==> put_header(b, h)[j] == b[j],
{
    reveal(put_header);
    let b1 = put_u32(b, 0, h.checksum as int);
    lemma_put_u32(b, 0, h.checksum as int);
    let b2 = put_u64(b1, 4, h.page_id as int);
    lemma_put_u64(b1, 4, h.page_id as int);
    let b3 = put_u64(b2, 12, h.page_lsn as int);
    lemma_put_u64(b2, 12, h.page_lsn as int);
    let b4 = put_u16(b3, 20, h.page_flags as int);
    lemma_put_u16(b3, 20, h.page_flags as int);
    let b5 = put_u16(b4, 22, h.lower as int);
    lemma_put_u16(b4, 22, h.lower as int);
    let b6 = put_u16(b5, 24, h.upper as int);
    lemma_put_u16(b5, 24, h.upper as int);
    assert(u32_at(b6, 0) == u32_at(b1, 0));
    assert(u64_at(b6, 4) == u64_at(b2, 4));
    assert(u64_at(b6, 12) == u64_at(b3, 12));
}

/// Storing a freshly computed checksum changes only bytes `[0, 4)`, and the
/// page then passes verification.
pub proof fn lemma_with_checksum(b: Seq<u8>)
    requires
        b.len() == PAGE_SIZE,
    ensures
        with_checksum(b).len() == PAGE_SIZE,
        checksum_ok(with_checksum(b)),
        forall|j: int| 4 <= j < PAGE_SIZE ==> with_checksum(b)[j] == b[j],
{
    lemma_put_u32(b, 0, checksum_of(b) as int);
    assert(with_checksum(b).subrange(4, PAGE_SIZE as int) =~= b.subrange(4, PAGE_SIZE as int));
}

/// A page whose header was rewritten and whose checksum was then
/// recomputed passes checksum verification.
pub proof fn lemma_header_then_checksum_verifies(b: Seq<u8>, h: PageHeader)
    requires
        b.len() == PAGE_SIZE,
    ensures
        checksum_ok(with_checksum(put_header(b, h))),
{
    lemma_put_header(b, h);
    lemma_with_checksum(put_header(b, h));
}

/// The 32-byte page header.
#[derive(Clone, Copy, Debug)]
pub struct PageHeader {
    pub checksum: u32,
    pub page_id: u64,
    pub page_lsn: u64,
    pub page_flags: u16,
    pub lower: u16,
    pub upper: u16,
    pub reserved: [u8; 6],
}

impl PageHeader {
    pub const LEN: usize = 32;

    /// The header of an empty page: no checksum yet, LSN 0, the tuple area
    /// starting right after the header and the slot directory empty.
    pub fn new(pid: PageId, flags: PageFlags) -> (r: PageHeader)
        ensures
            r.checksum == 0,
            r.page_id == pid.0,
            r.page_lsn == 0,
            r.page_flags == flags.spec_bits(),
            r.lower == HEADER_LEN,
            r.upper == PAGE_SIZE,
            forall|k: int| 0 <= k < 6 ==> r.reserved[k] == 0,
    {
        PageHeader {
            checksum: 0,
            page_id: pid.0,
            page_lsn: 0,
            page_flags: flags.bits(),
            lower: HEADER_LEN as u16,
            upper: PAGE_SIZE as u16,
            reserved: [0, 0, 0, 0, 0, 0],
        }
    }
}

/// A page: `PAGE_SIZE` bytes whose first 32 hold the header.
#[derive(Clone, Debug)]
pub struct Page {
    pub buf: Vec<u8>,
}

impl Page {
    /// The buffer has exactly the page size.
    pub open spec fn wf(&self) -> bool {
        self.buf@.len() == PAGE_SIZE
    }

    /// A zeroed page carrying the header of an empty page of the given kind,
    /// with a valid checksum.
    pub fn new(pid: PageId, flags: PageFlags) -> (r: Page)
        ensures
            r.wf(),
            checksum_ok(r.buf@),
            u64_at(r.buf@, 4) == pid.0,
            u64_at(r.buf@, 12) == 0,
            u16_at(r.buf@, 20) == flags.spec_bits(),
            lower_of(r.buf@) == HEADER_LEN,
            upper_of(r.buf@) == PAGE_SIZE,
            upper_of(r.buf@) - lower_of(r.buf@) == PAGE_SIZE - HEADER_LEN,
            forall|j: int| 26 <= j < PAGE_SIZE ==> r.buf@[j] == 0,
    {
        let mut pg = Page { buf: vec![0u8; PAGE_SIZE] };
        let header = PageHeader::new(pid, flags);
        let ghost z = pg.buf@;
        pg.write_header(&header);
        let ghost b = pg.buf@;
        assert forall|j: int| 26 <= j < PAGE_SIZE implies b[j] == 0 by {
            if j < 32 {
                assert(header.reserved[j - 26] == b[26 + (j - 26)]);
            } else {
                assert(b[j] == z[j]);
            }
        }
        pg.recompute_checksum();
        proof {
            lemma_with_checksum(b);
            assert(u64_at(pg.buf@, 4) == u64_at(b, 4));
            assert(u64_at(pg.buf@, 12) == u64_at(b, 12));
            assert(u16_at(pg.buf@, 20) == u16_at(b, 20));
            assert(u16_at(pg.buf@, 22) == u16_at(b, 22));
            assert(u16_at(pg.buf@, 24) == u16_at(b, 24));
        }
        pg
    }

    /// Decodes the header from the first 32 bytes.
    pub fn header(&self) -> (r: PageHeader)
        requires
            self.wf(),
        ensures
            header_matches(self.buf@, r),
    {
        let b = self.buf.as_slice();
        PageHeader {
            checksum: read_u32_le(b, 0),
            page_id: read_u64_le(b, 4),
            page_lsn: read_u64_le(b, 12),
            page_flags: read_u16_le(b, 20),
            lower: read_u16_le(b, 22),
            upper: read_u16_le(b, 24),
            reserved: [b[26], b[27], b[28], b[29], b[30], b[31]],
        }
    }

    /// Encodes `hdr` into the first 32 bytes.
    pub fn write_header(&mut self, hdr: &PageHeader)
        requires
            old(self).wf(),
        ensures
            final(self).buf@ == put_header(old(self).buf@, *hdr),
            final(self).wf(),
            header_matches(final(self).buf@, *hdr),
            forall|j: int| HEADER_LEN <= j < PAGE_SIZE ==> final(self).buf@[j] == old(self).buf@[j],
    {
        proof {
            lemma_put_header(self.buf@, *hdr);
            reveal(put_header);
        }
        write_u32_le(&mut self.buf, 0, hdr.checksum);
        write_u64_le(&mut self.buf, 4, hdr.page_id);
        write_u64_le(&mut self.buf, 12, hdr.page_lsn);
        write_u16_le(&mut self.buf, 20, hdr.page_flags);
        write_u16_le(&mut self.buf, 22, hdr.lower);
        write_u16_le(&mut self.buf, 24, hdr.upper);
        self.buf.set(26, hdr.reserved[0]);
        self.buf.set(27, hdr.reserved[1]);
        self.buf.set(28, hdr.reserved[2]);
        self.buf.set(29, hdr.reserved[3]);
        self.buf.set(30, hdr.reserved[4]);
        self.buf.set(31, hdr.reserved[5]);
    }

    /// Stores the log sequence number in bytes `[12, 20)`.
    pub fn set_lsn(&mut self, lsn: u64)
        requires
            old(self).wf(),
        ensures
            final(self).buf@ == put_u64(old(self).buf@, 12, lsn as int),
            final(self).wf(),
            u64_at(final(self).buf@, 12) == lsn,
    {
        proof {
            lemma_put_u64(self.buf@, 12, lsn as int);
        }
        write_u64_le(&mut self.buf, 12, lsn);
    }

    /// Stores the end of the tuple area in bytes `[22, 24)`.
    pub fn set_lower(&mut self, lower: u16)
        requires
            old(self).wf(),
        ensures
            final(self).buf@ == put_u16(old(self).buf@, 22, lower as int),
            final(self).wf(),
            lower_of(final(self).buf@) == lower,
            upper_of(final(self).buf@) == upper_of(old(self).buf@),
    {
        proof {
            lemma_put_u16(self.buf@, 22, lower as int);
        }
        write_u16_le(&mut self.buf, 22, lower);
    }

    /// Stores the start of the slot directory in bytes `[24, 26)`.
    pub fn set_upper(&mut self, upper: u16)
        requires
            old(self).wf(),
        ensures
            final(self).buf@ == put_u16(old(self).buf@, 24, upper as int),
            final(self).wf(),
            upper_of(final(self).buf@) == upper,
            lower_of(final(self).buf@) == lower_of(old(self).buf@),
    {
        proof {
            lemma_put_u16(self.buf@, 24, upper as int);
        }
        write_u16_le(&mut self.buf, 24, upper);
    }

    /// `upper - lower`: the bytes free between the tuple area and the slot
    /// directory.
    pub fn free_space(&self) -> (r: usize)
        requires
            self.wf(),
            lower_of(self.buf@) <= upper_of(self.buf@),
        ensures
            r == upper_of(self.buf@) - lower_of(self.buf@),
    {
        let b = self.buf.as_slice();
        (read_u16_le(b, 24) - read_u16_le(b, 22)) as usize
    }

    /// The identifier stored in bytes `[4, 12)`.
    pub fn page_id(&self) -> (r: PageId)
        requires
            self.wf(),
        ensures
            r.0 == u64_at(self.buf@, 4),
    {
        PageId(read_u64_le(self.buf.as_slice(), 4))
    }

    /// Whether the stored checksum equals the CRC-32 of bytes `[4, PAGE_SIZE)`.
    pub fn verify_checksum(&self) -> (r: bool)
        requires
            self.wf(),
        ensures
            r == checksum_ok(self.buf@),
    {
        let b = self.buf.as_slice();
        let sum = crc32(&b[4..PAGE_SIZE]);
        sum == read_u32_le(b, 0)
    }

    /// Stores the CRC-32 of bytes `[4, PAGE_SIZE)` in bytes `[0, 4)`.
    pub fn recompute_checksum(&mut self)
        requires
            old(self).wf(),
        ensures
            final(self).buf@ == with_checksum(old(self).buf@),
            final(self).wf(),
            checksum_ok(final(self).buf@),
            forall|j: int| 4 <= j < PAGE_SIZE ==> final(self).buf@[j] == old(self).buf@[j],
    {
        proof {
            lemma_with_checksum(self.buf@);
        }
        let sum = crc32(&self.buf.as_slice()[4..PAGE_SIZE]);
        write_u32_le(&mut self.buf, 0, sum);
    }

    /// Reads the little-endian 16-bit number at `offset`.
    pub fn read_u16(&self, offset: usize) -> (r: u16)
        requires
            self.wf(),
            offset + 2 <= PAGE_SIZE,
        ensures
            r == u16_at(self.buf@, offset as int),
    {
        read_u16_le(self.buf.as_slice(), offset)
    }

    /// Writes `value` as a little-endian 16-bit number at `offset`.
    pub fn write_u16(&mut self, offset: usize, value: u16)
        requires
            old(self).wf(),
            offset + 2 <= PAGE_SIZE,
        ensures
            final(self).buf@ == put_u16(old(self).buf@, offset as int, value as int),
            final(self).wf(),
            u16_at(final(self).buf@, offset as int) == value,
            forall|j: int|
                0 <= j < PAGE_SIZE && !(offset <= j < offset + 2) ==> final(self).buf@[j]
                    == old(self).buf@[j],
    {
        proof {
            lemma_put_u16(self.buf@, offset as int, value as int);
        }
        write_u16_le(&mut self.buf, offset, value);
    }
}

} // verus!
