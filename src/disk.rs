//! Page stores: the capability the query executor needs, and an in-memory
//! store.
use vstd::prelude::*;
use vstd::string::*;
use crate::text::{decimal, push_decimal};
use crate::bytes::u64_at;
use crate::error::DiskError;
use crate::page::{Page, PAGE_SIZE, checksum_ok};
use crate::page_id::{PageId, PAGES_PER_FILE, lemma_page_id_parts};
use crate::types::append_bytes;

verus! {

/// A store of pages, addressed by `(file_id, page_no)`.
pub trait DiskManager {
    /// Adds a zeroed page at the end of file `file_id` and returns its
    /// identifier.
    fn allocate_page(&mut self, file_id: u32) -> (r: Result<PageId, DiskError>)
        ensures
            r matches Ok(pid) ==> pid.spec_file_id() == file_id;

    /// Reads a page; a page whose checksum does not match fails with
    /// `Checksum`.
    fn read_page(&self, pid: PageId) -> (r: Result<Page, DiskError>)
        ensures
            r matches Ok(p) ==> p.wf() && checksum_ok(p.buf@),
            r matches Err(DiskError::Checksum(id)) ==> id == pid;

    /// Writes a page at the place its header's identifier names.
    fn write_page(&mut self, page: &Page) -> (r: Result<(), DiskError>)
        requires
            page.wf();

    /// Makes earlier writes durable, as far as the store offers.
    fn sync(&mut self) -> (r: Result<(), DiskError>);
}

/// The name of the backing file of file `file_id`: `base_<file_id>.db`.
pub fn file_name(file_id: u32) -> (r: String)
    ensures
        r@ == "base_"@ + decimal(file_id as nat) + ".db"@,
{
    let mut out = String::from_str("base_");
    push_decimal(&mut out, file_id as u64);
    out.append(".db");
    out
}

/// A page as last written.
pub struct StoredPage {
    pub id: u64,
    pub bytes: Vec<u8>,
}

/// A file's length in pages, as last changed.
pub struct FileLength {
    pub file_id: u32,
    pub pages: u64,
}

/// The bytes last written under `id`, if any.
pub open spec fn latest_page(log: Seq<StoredPage>, id: u64) -> Option<Seq<u8>>
    decreases log.len(),
{
    if log.len() == 0 {
        None
    } else if log.last().id == id {
        Some(log.last().bytes@)
    } else {
        latest_page(log.drop_last(), id)
    }
}

/// The length last recorded for file `f`, or 0.
pub open spec fn latest_length(log: Seq<FileLength>, f: u32) -> int
    decreases log.len(),
{
    if log.len() == 0 {
        0
    } else if log.last().file_id == f {
        log.last().pages as int
    } else {
        latest_length(log.drop_last(), f)
    }
}

/// A page of zero bytes.
pub open spec fn zero_page() -> Seq<u8> {
    Seq::new(PAGE_SIZE as nat, |i: int| 0u8)
}

/// A page store held in memory. Every write is appended to a log and the
/// latest entry for an identifier is the page's content; pages inside a
/// file that were never written read as zeros, like the gap of a file
/// extended past its end.
pub struct MemDiskManager {
    pages: Vec<StoredPage>,
    lengths: Vec<FileLength>,
}

impl MemDiskManager {
    /// The bytes last written under identifier `id`.
    pub closed spec fn stored(&self, id: u64) -> Option<Seq<u8>> {
        latest_page(self.pages@, id)
    }

    /// Number of pages of file `f`.
    pub closed spec fn page_count(&self, f: u32) -> int {
        latest_length(self.lengths@, f)
    }

    /// The content of page `pid`: what was last written there, zeros if
    /// nothing was, or nothing outside the file.
    pub closed spec fn content(&self, pid: PageId) -> Option<Seq<u8>> {
        if pid.spec_page_no() >= self.page_count(pid.spec_file_id()) {
            None
        } else {
            match latest_page(self.pages@, pid.0) {
                Some(b) => Some(b),
                None => Some(zero_page()),
            }
        }
    }

    /// What reading `pid` gives: the page's bytes, `Io` outside the file,
    /// `Checksum` when the bytes do not verify.
    pub open spec fn read_outcome(&self, pid: PageId) -> Result<Seq<u8>, DiskError> {
        match self.content(pid) {
            None => Err(DiskError::Io),
            Some(b) => if b.len() != PAGE_SIZE {
                Err(DiskError::Io)
            } else if checksum_ok(b) {
                Ok(b)
            } else {
                Err(DiskError::Checksum(pid))
            },
        }
    }

    /// An empty store.
    pub fn new() -> (r: MemDiskManager)
        ensures
            forall|f: u32| r.page_count(f) == 0,
    {
        MemDiskManager { pages: Vec::new(), lengths: Vec::new() }
    }

    fn length(&self, f: u32) -> (r: u64)
        ensures
            r == self.page_count(f),
    {
        let mut i = self.lengths.len();
        assert(self.lengths@.subrange(0, i as int) =~= self.lengths@);
        while i > 0
            invariant
                i <= self.lengths@.len(),
                latest_length(self.lengths@, f) == latest_length(self.lengths@.subrange(0, i as int), f),
            decreases i,
        {
            let ghost pre = self.lengths@.subrange(0, i as int);
            assert(pre.drop_last() =~= self.lengths@.subrange(0, i - 1));
            if self.lengths[i - 1].file_id == f {
                return self.lengths[i - 1].pages;
            }
            i -= 1;
        }
        0
    }

    fn latest(&self, id: u64) -> (r: Option<&Vec<u8>>)
        ensures
            r matches Some(b) ==> latest_page(self.pages@, id) == Some(b@),
            r is None ==> latest_page(self.pages@, id) is None,
    {
        let mut i = self.pages.len();
        assert(self.pages@.subrange(0, i as int) =~= self.pages@);
        while i > 0
            invariant
                i <= self.pages@.len(),
                latest_page(self.pages@, id) == latest_page(self.pages@.subrange(0, i as int), id),
            decreases i,
        {
            let ghost pre = self.pages@.subrange(0, i as int);
            assert(pre.drop_last() =~= self.pages@.subrange(0, i - 1));
            if self.pages[i - 1].id == id {
                return Some(&self.pages[i - 1].bytes);
            }
            i -= 1;
        }
        None
    }

    /// Adds a page to file `file_id`; fails with `Io` when the file
    /// already has the largest number of pages.
    pub fn allocate(&mut self, file_id: u32) -> (r: Result<PageId, DiskError>)
        ensures
            0 <= old(self).page_count(file_id),
            old(self).page_count(file_id) < PAGES_PER_FILE ==> {
                &&& r matches Ok(pid) && pid.0 == file_id as int * PAGES_PER_FILE + old(self).page_count(file_id)
                &&& final(self).page_count(file_id) == old(self).page_count(file_id) + 1
            },
            old(self).page_count(file_id) >= PAGES_PER_FILE ==> r == Err::<PageId, DiskError>(DiskError::Io),
            forall|f: u32| f != file_id ==> final(self).page_count(f) == old(self).page_count(f),
            forall|id: u64| final(self).stored(id) == old(self).stored(id),
    {
        let n = self.length(file_id);
        if n >= PAGES_PER_FILE {
            return Err(DiskError::Io);
        }
        let ghost old_lengths = self.lengths@;
        self.lengths.push(FileLength { file_id, pages: n + 1 });
        assert(self.lengths@.drop_last() =~= old_lengths);
        Ok(PageId::new(file_id, n as u32))
    }

    /// Reads page `pid`; a page outside its file, or stored with another
    /// size, fails with `Io`.
    pub fn read(&self, pid: PageId) -> (r: Result<Page, DiskError>)
        ensures
            r matches Ok(p) ==> p.wf(),
            match (r, self.read_outcome(pid)) {
                (Ok(p), Ok(b)) => p.buf@ == b,
                (Err(e), Err(d)) => e == d,
                _ => false,
            },
    {
        let n = self.length(pid.file_id());
        if pid.page_no() as u64 >= n {
            return Err(DiskError::Io);
        }
        let mut buf: Vec<u8> = Vec::new();
        match self.latest(pid.0) {
            Some(b) => {
                if b.len() != PAGE_SIZE {
                    return Err(DiskError::Io);
                }
                append_bytes(&mut buf, b.as_slice());
            },
            None => {
                buf = vec![0u8; PAGE_SIZE];
                assert(buf@ =~= zero_page());
            },
        }
        let p = Page { buf };
        if !p.verify_checksum() {
            return Err(DiskError::Checksum(pid));
        }
        Ok(p)
    }

    /// Writes `page` at the place its header's identifier names, extending
    /// the file when the page lies past its end.
    pub fn write(&mut self, page: &Page) -> (r: Result<(), DiskError>)
        requires
            page.wf(),
        ensures
            r is Ok,
            ({
                let id = PageId(u64_at(page.buf@, 4) as u64);
                &&& final(self).content(id) == Some(page.buf@)
                &&& forall|other: PageId| other != id && old(self).content(other) is Some ==> final(self).content(other) == old(self).content(other)
            }),
    {
        let pid = page.page_id();
        let n = self.length(pid.file_id());
        let mut bytes: Vec<u8> = Vec::new();
        append_bytes(&mut bytes, page.buf.as_slice());
        let ghost old_pages = self.pages@;
        let ghost old_self = *self;
        self.pages.push(StoredPage { id: pid.0, bytes });
        assert(self.pages@.drop_last() =~= old_pages);
        if pid.page_no() as u64 >= n {
            let ghost old_lengths = self.lengths@;
            self.lengths.push(FileLength { file_id: pid.file_id(), pages: pid.page_no() as u64 + 1 });
            assert(self.lengths@.drop_last() =~= old_lengths);
        }
        proof {
            assert forall|other: PageId| other != pid && old_self.content(other) is Some implies self.content(other) == old_self.content(other) by {
                if other.spec_file_id() == pid.spec_file_id() {
                    assert(other.0 != pid.0);
                }
            }
        }
        Ok(())
    }
}

/// A page written to the store and read back by the identifier in its
/// header comes back byte for byte, provided its checksum is valid.
/// `after` is the store once `write` has stored `page`.
pub proof fn lemma_write_then_read(after: MemDiskManager, page: Page)
    requires
        page.wf(),
        checksum_ok(page.buf@),
        after.content(PageId(u64_at(page.buf@, 4) as u64)) == Some(page.buf@),
    ensures
        after.read_outcome(PageId(u64_at(page.buf@, 4) as u64)) == Ok::<Seq<u8>, DiskError>(page.buf@),
{
}

impl DiskManager for MemDiskManager {
    fn allocate_page(&mut self, file_id: u32) -> (r: Result<PageId, DiskError>) {
        let r = self.allocate(file_id);
        proof {
            if r is Ok {
                lemma_page_id_parts(file_id, old(self).page_count(file_id) as u32);
            }
        }
        r
    }

    fn read_page(&self, pid: PageId) -> (r: Result<Page, DiskError>) {
        self.read(pid)
    }

    fn write_page(&mut self, page: &Page) -> (r: Result<(), DiskError>) {
        self.write(page)
    }

    fn sync(&mut self) -> (r: Result<(), DiskError>) {
        Ok(())
    }
}

} // verus!
