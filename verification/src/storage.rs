//! The persistence backend interface the pool consumes, and an in-memory
//! backend for exercising the pool.

use std::collections::HashMap;
use vstd::prelude::*;

use crate::page_store::{zero_page, PageId, PAGE_SIZE};

verus! {

broadcast use vstd::std_specs::hash::group_hash_axioms;

/// Failures of the persistence backend.
#[derive(Debug, Clone, Copy, PartialEq, Eq)]
pub enum StorageError {
    NotFound,
    PageAlreadyExists,
}

/// A persistence backend, addressed by page identifier, operating on
/// fixed-size page buffers.
///
/// `contents()` is the abstract state every implementation must account
/// for: which pages exist durably, and their bytes, keyed by the page
/// identifier's offset.
pub trait Storage: Sized {
    /// The pages the backend currently stores, by identifier offset.
    spec fn contents(&self) -> Map<usize, Seq<u8>>;

    /// Every stored page holds exactly one page worth of bytes.
    spec fn wf(&self) -> bool;

    /// Fill `buf` with the persisted bytes of `page`, if the backend has it.
    fn load_page(&self, buf: &mut Vec<u8>, page: &PageId) -> (r: Result<(), StorageError>)
        requires
            self.wf(),
        ensures
            match r {
                Ok(()) => {
                    &&& self.contents().contains_key(page.offset)
                    &&& final(buf)@ == self.contents()[page.offset]
                    &&& final(buf)@.len() == PAGE_SIZE
                },
                Err(e) => {
                    &&& e == StorageError::NotFound
                    &&& !self.contents().contains_key(page.offset)
                    &&& final(buf)@ == old(buf)@
                },
            },
    ;

    /// Register a brand-new, zero-filled page under `page`; fails if the
    /// backend already has one.
    fn create_page(&mut self, page: &PageId) -> (r: Result<(), StorageError>)
        requires
            old(self).wf(),
        ensures
            final(self).wf(),
            match r {
                Ok(()) => {
                    &&& !old(self).contents().contains_key(page.offset)
                    &&& final(self).contents() == old(self).contents().insert(
                        page.offset,
                        zero_page(),
                    )
                },
                Err(e) => {
                    &&& e == StorageError::PageAlreadyExists
                    &&& old(self).contents().contains_key(page.offset)
                    &&& final(self).contents() == old(self).contents()
                },
            },
    ;

    /// Persist `buf` as the bytes of `page`. The pool core never calls
    /// this: write-back is a separate concern; it is part of the backend
    /// contract all the same.
    fn write_page(&mut self, buf: &Vec<u8>, page: &PageId) -> (r: Result<(), StorageError>)
        requires
            old(self).wf(),
            buf@.len() == PAGE_SIZE,
        ensures
            final(self).wf(),
            match r {
                Ok(()) => final(self).contents() == old(self).contents().insert(
                    page.offset,
                    buf@,
                ),
                Err(_) => final(self).contents() == old(self).contents(),
            },
    ;
}

/// An in-memory backend: pages live in a map, nothing is durable. It
/// shows the `Storage` contract can be met, and backs the test suites.
pub struct TestStorage {
    map: HashMap<usize, Vec<u8>>,
}

impl TestStorage {
    pub fn new() -> (s: TestStorage)
        ensures
            s.wf(),
            s.contents() == Map::<usize, Seq<u8>>::empty(),
    {
        let s = TestStorage { map: HashMap::new() };
        proof {
            assert(s.contents() =~= Map::<usize, Seq<u8>>::empty());
        }
        s
    }
}

impl Storage for TestStorage {
    closed spec fn contents(&self) -> Map<usize, Seq<u8>> {
        self.map@.map_values(|v: Vec<u8>| v@)
    }

    closed spec fn wf(&self) -> bool {
        forall|k: usize| #[trigger] self.map@.contains_key(k) ==> self.map@[k]@.len() == PAGE_SIZE
    }

    fn load_page(&self, buf: &mut Vec<u8>, page: &PageId) -> (r: Result<(), StorageError>) {
        match self.map.get(&page.offset) {
            Some(data) => {
                let copy = data.clone();
                proof {
                    assert(copy@ =~= data@);
                }
                *buf = copy;
                Ok(())
            },
            None => Err(StorageError::NotFound),
        }
    }

    fn create_page(&mut self, page: &PageId) -> (r: Result<(), StorageError>) {
        if self.map.contains_key(&page.offset) {
            return Err(StorageError::PageAlreadyExists);
        }
        let mut zeroes: Vec<u8> = Vec::new();
        while zeroes.len() < PAGE_SIZE
            invariant
                zeroes@.len() <= PAGE_SIZE,
                forall|i: int| 0 <= i < zeroes@.len() ==> zeroes@[i] == 0u8,
            decreases PAGE_SIZE - zeroes.len(),
        {
            zeroes.push(0u8);
        }
        proof {
            assert(zeroes@ =~= zero_page());
        }
        self.map.insert(page.offset, zeroes);
        proof {
            assert(self.contents() =~= old(self).contents().insert(page.offset, zero_page()));
        }
        Ok(())
    }

    fn write_page(&mut self, buf: &Vec<u8>, page: &PageId) -> (r: Result<(), StorageError>) {
        let copy = buf.clone();
        proof {
            assert(copy@ =~= buf@);
        }
        self.map.insert(page.offset, copy);
        proof {
            assert(self.contents() =~= old(self).contents().insert(page.offset, buf@));
        }
        Ok(())
    }
}

} // verus!
