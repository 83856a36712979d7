//! An in-memory page buffer pool for a paged-storage engine: a fixed-size
//! slot arena, a directory of resident pages with pin counting, and a
//! single-writer / multi-reader access protocol per page, backed by a
//! pluggable persistence trait.

pub mod page_store;
pub mod storage;
