//! A small relational storage engine: checksummed fixed-size pages, a
//! slotted heap page, a page store abstraction, and a SELECT-only query
//! pipeline (parse, plan, execute) over heap pages.

pub mod ast;
pub mod bytes;
pub mod disk;
pub mod error;
pub mod executor;
pub mod heap_page;
pub mod page;
pub mod page_id;
pub mod parser;
pub mod planner;
pub mod session;
pub mod slot;
pub mod table;
pub mod text;
pub mod types;
