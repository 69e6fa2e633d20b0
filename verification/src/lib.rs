//! The page cache of a key-value store that keeps a binary Merkle trie in
//! pages of 4096 bytes, and the ids by which the pages are known.
//!
//! - `page_id`: the ids of the pages, their fixed-width form, and the pages
//!   along a key path.
//! - `page`: the layout of a page, and reading and writing its slots.
//! - `page_diff`: which slots of a page have changed.
//! - `rw_pass`: the domain that guards the pages, the passes to it, and the
//!   handles to the pages.
//! - `inflight`: the meeting point of those who wait for one page.
//! - `page_cache`: the cache itself, as a state machine.
//! - `store`: what the cache asks of the store.
//! - `options`: the settings of a cache.
//! - `uint256`: the 256-bit integers that the page ids are computed with.

pub mod inflight;
pub mod options;
pub mod page;
pub mod page_cache;
pub mod page_diff;
pub mod page_id;
pub mod rw_pass;
pub mod store;
pub mod uint256;
