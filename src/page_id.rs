//! Page identifiers and page kinds.
use vstd::prelude::*;
use vstd::string::*;
use crate::text::{decimal, push_decimal};

verus! {

/// The kind of a page, as stored in its header.
#[derive(Debug, Clone, Copy, PartialEq, Eq, Structural)]
pub enum PageFlags {
    Heap,
    Index,
    Meta,
}

impl PageFlags {
    /// The header encoding of the kind: Heap = 1, Index = 2, Meta = 4.
    pub open spec fn spec_bits(self) -> u16 {
        match self {
            PageFlags::Heap => 1,
            PageFlags::Index => 2,
            PageFlags::Meta => 4,
        }
    }

    /// The header encoding of the kind.
    #[verifier::when_used_as_spec(spec_bits)]
    pub fn bits(self) -> (r: u16)
        ensures
            r == self.spec_bits(),
    {
        match self {
            PageFlags::Heap => 1,
            PageFlags::Index => 2,
            PageFlags::Meta => 4,
        }
    }
}

/// A page identifier: the high 32 bits select the file, the low 32 bits the
/// page within it. Ordering is lexicographic on `(file_id, page_no)`.
#[derive(Debug, Clone, Copy, PartialEq, Eq, Structural, Hash, PartialOrd, Ord)]
pub struct PageId(pub u64);

pub const PAGES_PER_FILE: u64 = 4294967296;

impl PageId {
    pub open spec fn spec_file_id(self) -> u32 {
        (self.0 / PAGES_PER_FILE) as u32
    }

    pub open spec fn spec_page_no(self) -> u32 {
        (self.0 % PAGES_PER_FILE) as u32
    }

    /// The identifier of page `page_no` of file `file_id`.
    pub fn new(file_id: u32, page_no: u32) -> (r: PageId)
        ensures
            r.0 == file_id as int * PAGES_PER_FILE + page_no as int,
    {
        PageId(file_id as u64 * PAGES_PER_FILE + page_no as u64)
    }

    /// The file that holds the page.
    #[verifier::when_used_as_spec(spec_file_id)]
    pub fn file_id(self) -> (r: u32)
        ensures
            r as int == self.0 as int / PAGES_PER_FILE as int,
    {
        (self.0 / PAGES_PER_FILE) as u32
    }

    /// The identifier as text: `PageId(<file_id>:<page_no>)`.
    pub fn describe(self) -> (r: String)
        ensures
            r@ == "PageId("@ + decimal(self.spec_file_id() as nat) + ":"@ + decimal(
                self.spec_page_no() as nat,
            ) + ")"@,
    {
        let mut out = String::from_str("PageId(");
        push_decimal(&mut out, self.file_id() as u64);
        out.append(":");
        push_decimal(&mut out, self.page_no() as u64);
        out.append(")");
        out
    }

    /// The ordinal of the page within its file.
    #[verifier::when_used_as_spec(spec_page_no)]
    pub fn page_no(self) -> (r: u32)
        ensures
            r as int == self.0 as int % PAGES_PER_FILE as int,
    {
        (self.0 % PAGES_PER_FILE) as u32
    }
}

/// Composing an identifier and taking it apart again gives back both parts.
pub proof fn lemma_page_id_parts(file_id: u32, page_no: u32)
    ensures
        ({
            let id = PageId((file_id as int * PAGES_PER_FILE + page_no as int) as u64);
            id.spec_file_id() == file_id && id.spec_page_no() == page_no
        }),
{
    let v = file_id as int * PAGES_PER_FILE + page_no as int;
    assert(v / PAGES_PER_FILE as int == file_id as int && v % PAGES_PER_FILE as int == page_no as int) by (nonlinear_arith)
        requires v == file_id as int * 4294967296 + page_no as int, 0 <= page_no < 4294967296, 0 <= file_id;
}

} // verus!
