//! The pool core: page residency tracking, pin counting, and the
//! reader/writer access-control state per resident page.

use std::collections::HashMap;
use vstd::prelude::*;

use crate::storage::{Storage, StorageError};

verus! {

broadcast use vstd::std_specs::hash::group_hash_axioms;

/// Number of bytes in one page buffer.
pub const PAGE_SIZE: usize = 4096;

/// Number of slots in the arena: at most this many distinct pages can be
/// resident at once. The pool never evicts, so the capacity is a hard bound.
pub const POOL_SIZE: usize = 40;

/// Logical identifier of a page, stable across the page's lifetime.
#[derive(Clone, Copy, PartialEq, Eq, Structural)]
pub struct PageId {
    pub offset: usize,
}

impl PageId {
    pub fn new(offset: usize) -> (id: PageId)
        ensures
            id.offset == offset,
    {
        PageId { offset }
    }
}

/// A page of all zero bytes, as the backend and the arena create them.
pub open spec fn zero_page() -> Seq<u8> {
    Seq::new(PAGE_SIZE as nat, |i: int| 0u8)
}

/// One fixed-size slot buffer of the arena.
pub struct Page {
    buf: Vec<u8>,
}

impl Page {
    /// The bytes this slot currently holds.
    pub closed spec fn bytes(self) -> Seq<u8> {
        self.buf@
    }

    /// A slot buffer always holds exactly one page worth of bytes.
    pub open spec fn wf(self) -> bool {
        self.bytes().len() == PAGE_SIZE
    }

    /// A freshly allocated, zero-filled slot.
    pub fn new_zeroed() -> (p: Page)
        ensures
            p.bytes() == zero_page(),
            p.wf(),
    {
        let mut buf: Vec<u8> = Vec::new();
        while buf.len() < PAGE_SIZE
            invariant
                buf@.len() <= PAGE_SIZE,
                forall|i: int| 0 <= i < buf@.len() ==> buf@[i] == 0u8,
            decreases PAGE_SIZE - buf.len(),
        {
            buf.push(0u8);
        }
        proof {
            assert(buf@ =~= zero_page());
        }
        Page { buf }
    }
}

/// Failures of pool operations, returned to the caller; none is retried
/// internally.
#[derive(Debug, Clone, Copy, PartialEq, Eq)]
pub enum PageError {
    /// The identifier has no resident page.
    PageNotInPool,
    /// The requested access conflicts with an outstanding write guard.
    PageInUseForWrite,
    /// A write guard was requested while read guards are outstanding.
    PageInUseForRead,
    /// A backend failure, wrapped verbatim.
    Storage(StorageError),
    /// The arena is at capacity and a new page had to be made resident.
    PoolIsFull,
}

/// Bookkeeping for one resident page: which slot holds its bytes, and the
/// outstanding pins, read guards and write guard.
#[derive(Clone, Copy)]
pub struct PageMeta {
    pub index: usize,
    pub pins: usize,
    pub readers: usize,
    pub writer: bool,
}

struct PoolInternal<S: Storage> {
    storage: S,
    pages: Vec<Page>,
    page_state: HashMap<usize, PageMeta>,
}

impl<S: Storage> PoolInternal<S> {
    /// The page directory: per-resident-page bookkeeping, keyed by the
    /// page identifier's offset.
    spec fn dir(self) -> Map<usize, PageMeta> {
        self.page_state@
    }

    /// The pool invariant: slots hold whole pages, directory entries point
    /// at distinct slots of the arena, one slot per resident page, and no
    /// page has both an active writer and readers.
    spec fn wf(self) -> bool {
        &&& self.pages@.len() <= POOL_SIZE
        &&& self.dir().dom().len() == self.pages@.len()
        &&& forall|i: int| 0 <= i < self.pages@.len() ==> (#[trigger] self.pages@[i]).wf()
        &&& forall|k: usize| #[trigger] self.dir().contains_key(k) ==> {
            &&& self.dir()[k].index < self.pages@.len()
            &&& (self.dir()[k].writer ==> self.dir()[k].readers == 0)
        }
        &&& forall|k1: usize, k2: usize|
            #[trigger] self.dir().contains_key(k1) && #[trigger] self.dir().contains_key(k2)
                && k1 != k2 ==> self.dir()[k1].index != self.dir()[k2].index
        &&& self.storage.wf()
    }

    fn new(storage: S) -> (pool: PoolInternal<S>)
        requires
            storage.wf(),
        ensures
            pool.wf(),
            pool.dir() == Map::<usize, PageMeta>::empty(),
            pool.pages@.len() == 0,
            pool.storage == storage,
    {
        PoolInternal { storage, pages: Vec::new(), page_state: HashMap::new() }
    }

    /// Claim the next free slot of the arena, zero-filled, and hand back
    /// the bookkeeping entry for it (not yet pinned, not yet filed in the
    /// directory).
    fn allocate_page(&mut self) -> (r: Result<PageMeta, PageError>)
        ensures
            final(self).storage == old(self).storage,
            final(self).dir() == old(self).dir(),
            match r {
                Ok(meta) => {
                    &&& old(self).pages@.len() < POOL_SIZE
                    &&& final(self).pages@.len() == old(self).pages@.len() + 1
                    &&& forall|i: int|
                        0 <= i < old(self).pages@.len() ==> final(self).pages@[i] == old(
                            self,
                        ).pages@[i]
                    &&& final(self).pages@[old(self).pages@.len() as int].bytes() == zero_page()
                    &&& meta == (PageMeta {
                        index: old(self).pages@.len() as usize,
                        pins: 0,
                        readers: 0,
                        writer: false,
                    })
                },
                Err(e) => {
                    &&& e == PageError::PoolIsFull
                    &&& old(self).pages@.len() >= POOL_SIZE
                    &&& final(self).pages@ == old(self).pages@
                },
            },
    {
        if self.pages.len() >= POOL_SIZE {
            return Err(PageError::PoolIsFull);
        }
        let index = self.pages.len();
        self.pages.push(Page::new_zeroed());
        Ok(PageMeta { index, pins: 0, readers: 0, writer: false })
    }

    /// Raise the pin count of `page`, making it resident first if need be:
    /// a first pin claims a fresh slot and fills it from the backend.
    fn pin_page(&mut self, page: &PageId) -> (r: Result<(), PageError>)
        requires
            old(self).wf(),
            old(self).dir().contains_key(page.offset) ==> old(self).dir()[page.offset].pins
                < usize::MAX,
        ensures
            final(self).wf(),
            final(self).storage == old(self).storage,
            forall|k: usize|
                k != page.offset ==> #[trigger] final(self).dir().contains_key(k) == old(
                    self,
                ).dir().contains_key(k),
            forall|k: usize|
                k != page.offset && old(self).dir().contains_key(k) ==> #[trigger] final(self).dir()[k] == old(self).dir()[k],
            forall|i: int|
                0 <= i < old(self).pages@.len() ==> #[trigger] final(self).pages@[i] == old(
                    self,
                ).pages@[i],
            old(self).dir().contains_key(page.offset) ==> {
                &&& r == Ok::<(), PageError>(())
                &&& final(self).pages@ == old(self).pages@
                &&& final(self).dir().contains_key(page.offset)
                &&& final(self).dir()[page.offset].index == old(self).dir()[page.offset].index
                &&& final(self).dir()[page.offset].pins == old(self).dir()[page.offset].pins + 1
                &&& final(self).dir()[page.offset].readers == old(self).dir()[page.offset].readers
                &&& final(self).dir()[page.offset].writer == old(self).dir()[page.offset].writer
            },
            !old(self).dir().contains_key(page.offset) && old(self).pages@.len() == POOL_SIZE
                ==> {
                &&& r == Err::<(), PageError>(PageError::PoolIsFull)
                &&& final(self).pages@ == old(self).pages@
                &&& final(self).dir() == old(self).dir()
            },
            !old(self).dir().contains_key(page.offset) && old(self).pages@.len() < POOL_SIZE
                ==> {
                &&& final(self).pages@.len() == old(self).pages@.len() + 1
                &&& final(self).dir().contains_key(page.offset)
                &&& final(self).dir()[page.offset] == (PageMeta {
                    index: old(self).pages@.len() as usize,
                    pins: 1,
                    readers: 0,
                    writer: false,
                })
                &&& if old(self).storage.contents().contains_key(page.offset) {
                    &&& r == Ok::<(), PageError>(())
                    &&& final(self).pages@[old(self).pages@.len() as int].bytes() == old(
                        self,
                    ).storage.contents()[page.offset]
                } else {
                    &&& r == Err::<(), PageError>(PageError::Storage(StorageError::NotFound))
                    &&& final(self).pages@[old(self).pages@.len() as int].bytes() == zero_page()
                }
            },
    {
        let found: Option<PageMeta> = match self.page_state.get(&page.offset) {
            Some(m) => Some(*m),
            None => None,
        };
        match found {
            Some(meta) => {
                let updated = PageMeta {
                    index: meta.index,
                    pins: meta.pins + 1,
                    readers: meta.readers,
                    writer: meta.writer,
                };
                self.page_state.insert(page.offset, updated);
                proof {
                    assert(self.dir().dom() =~= old(self).dir().dom());
                }
                Ok(())
            },
            None => {
                let meta0 = match self.allocate_page() {
                    Ok(m) => m,
                    Err(e) => {
                        return Err(e);
                    },
                };
                let index = meta0.index;
                let meta = PageMeta { index, pins: 1, readers: 0, writer: false };
                self.page_state.insert(page.offset, meta);
                let load_result = self.storage.load_page(&mut self.pages[index].buf, page);
                proof {
                    assert(self.dir().dom() =~= old(self).dir().dom().insert(page.offset));
                }
                match load_result {
                    Ok(()) => Ok(()),
                    Err(e) => Err(PageError::Storage(e)),
                }
            },
        }
    }

    /// Ask the backend to create a brand-new page, then pin it.
    fn create_and_pin_page(&mut self, page: &PageId) -> (r: Result<(), PageError>)
        requires
            old(self).wf(),
            old(self).dir().contains_key(page.offset) ==> old(self).dir()[page.offset].pins
                < usize::MAX,
        ensures
            final(self).wf(),
            forall|k: usize|
                k != page.offset ==> #[trigger] final(self).dir().contains_key(k) == old(
                    self,
                ).dir().contains_key(k),
            forall|k: usize|
                k != page.offset && old(self).dir().contains_key(k) ==> #[trigger] final(self).dir()[k] == old(
                    self,
                ).dir()[k],
            forall|i: int|
                0 <= i < old(self).pages@.len() ==> #[trigger] final(self).pages@[i] == old(
                    self,
                ).pages@[i],
            old(self).storage.contents().contains_key(page.offset) ==> {
                &&& r == Err::<(), PageError>(PageError::Storage(StorageError::PageAlreadyExists))
                &&& final(self).storage.contents() == old(self).storage.contents()
                &&& final(self).pages@ == old(self).pages@
                &&& final(self).dir() == old(self).dir()
            },
            !old(self).storage.contents().contains_key(page.offset) ==> {
                &&& final(self).storage.contents() == old(self).storage.contents().insert(
                    page.offset,
                    zero_page(),
                )
                &&& old(self).dir().contains_key(page.offset) ==> {
                    &&& r == Ok::<(), PageError>(())
                    &&& final(self).pages@ == old(self).pages@
                    &&& final(self).dir().contains_key(page.offset)
                    &&& final(self).dir()[page.offset].index == old(self).dir()[page.offset].index
                    &&& final(self).dir()[page.offset].pins == old(self).dir()[page.offset].pins
                        + 1
                    &&& final(self).dir()[page.offset].readers == old(
                        self,
                    ).dir()[page.offset].readers
                    &&& final(self).dir()[page.offset].writer == old(
                        self,
                    ).dir()[page.offset].writer
                }
                &&& !old(self).dir().contains_key(page.offset) && old(self).pages@.len()
                    == POOL_SIZE ==> {
                    &&& r == Err::<(), PageError>(PageError::PoolIsFull)
                    &&& final(self).pages@ == old(self).pages@
                    &&& final(self).dir() == old(self).dir()
                }
                &&& !old(self).dir().contains_key(page.offset) && old(self).pages@.len()
                    < POOL_SIZE ==> {
                    &&& r == Ok::<(), PageError>(())
                    &&& final(self).pages@.len() == old(self).pages@.len() + 1
                    &&& final(self).dir().contains_key(page.offset)
                    &&& final(self).dir()[page.offset] == (PageMeta {
                        index: old(self).pages@.len() as usize,
                        pins: 1,
                        readers: 0,
                        writer: false,
                    })
                    &&& final(self).pages@[old(self).pages@.len() as int].bytes() == zero_page()
                }
            },
    {
        match self.storage.create_page(page) {
            Ok(()) => (),
            Err(e) => {
                return Err(PageError::Storage(e));
            },
        }
        self.pin_page(page)
    }

    /// Look up the bookkeeping entry for `page`.
    fn get_meta(&self, page: &PageId) -> (r: Result<PageMeta, PageError>)
        ensures
            match r {
                Ok(meta) => self.dir().contains_key(page.offset) && meta == self.dir()[page.offset],
                Err(e) => e == PageError::PageNotInPool && !self.dir().contains_key(page.offset),
            },
    {
        match self.page_state.get(&page.offset) {
            Some(m) => Ok(*m),
            None => Err(PageError::PageNotInPool),
        }
    }

    /// Drop one pin of `page`.
    fn unpin_page(&mut self, page: &PageId) -> (r: Result<(), PageError>)
        requires
            old(self).wf(),
            old(self).dir().contains_key(page.offset) ==> old(self).dir()[page.offset].pins >= 1,
        ensures
            final(self).wf(),
            final(self).storage == old(self).storage,
            final(self).pages@ == old(self).pages@,
            forall|k: usize|
                k != page.offset ==> #[trigger] final(self).dir().contains_key(k) == old(
                    self,
                ).dir().contains_key(k),
            forall|k: usize|
                k != page.offset && old(self).dir().contains_key(k) ==> #[trigger] final(self).dir()[k] == old(
                    self,
                ).dir()[k],
            old(self).dir().contains_key(page.offset) ==> {
                &&& r == Ok::<(), PageError>(())
                &&& final(self).dir().contains_key(page.offset)
                &&& final(self).dir()[page.offset].index == old(self).dir()[page.offset].index
                &&& final(self).dir()[page.offset].pins == old(self).dir()[page.offset].pins - 1
                &&& final(self).dir()[page.offset].readers == old(self).dir()[page.offset].readers
                &&& final(self).dir()[page.offset].writer == old(self).dir()[page.offset].writer
            },
            !old(self).dir().contains_key(page.offset) ==> {
                &&& r == Err::<(), PageError>(PageError::PageNotInPool)
                &&& final(self).dir() == old(self).dir()
            },
    {
        let meta = match self.get_meta(page) {
            Ok(m) => m,
            Err(e) => {
                return Err(e);
            },
        };
        let updated = PageMeta {
            index: meta.index,
            pins: meta.pins - 1,
            readers: meta.readers,
            writer: meta.writer,
        };
        self.page_state.insert(page.offset, updated);
        proof {
            assert(self.dir().dom() =~= old(self).dir().dom());
        }
        Ok(())
    }

    /// Grant shared read access to `page`: fails while a write guard is
    /// outstanding, otherwise counts one more reader and hands back the
    /// page's slot index.
    fn try_get_read(&mut self, page: &PageId) -> (r: Result<usize, PageError>)
        requires
            old(self).wf(),
            old(self).dir().contains_key(page.offset) ==> old(self).dir()[page.offset].readers
                < usize::MAX,
        ensures
            final(self).wf(),
            final(self).storage == old(self).storage,
            final(self).pages@ == old(self).pages@,
            forall|k: usize|
                k != page.offset ==> #[trigger] final(self).dir().contains_key(k) == old(
                    self,
                ).dir().contains_key(k),
            forall|k: usize|
                k != page.offset && old(self).dir().contains_key(k) ==> #[trigger] final(self).dir()[k] == old(
                    self,
                ).dir()[k],
            !old(self).dir().contains_key(page.offset) ==> r == Err::<usize, PageError>(
                PageError::PageNotInPool,
            ) && final(self).dir() == old(self).dir(),
            old(self).dir().contains_key(page.offset) && old(self).dir()[page.offset].writer ==> r
                == Err::<usize, PageError>(PageError::PageInUseForWrite) && final(self).dir()
                == old(self).dir(),
            old(self).dir().contains_key(page.offset) && !old(self).dir()[page.offset].writer
                ==> {
                &&& r == Ok::<usize, PageError>(old(self).dir()[page.offset].index)
                &&& final(self).dir().contains_key(page.offset)
                &&& final(self).dir()[page.offset].index == old(self).dir()[page.offset].index
                &&& final(self).dir()[page.offset].pins == old(self).dir()[page.offset].pins
                &&& final(self).dir()[page.offset].readers == old(self).dir()[page.offset].readers
                    + 1
                &&& final(self).dir()[page.offset].writer == old(self).dir()[page.offset].writer
            },
    {
        let meta = match self.get_meta(page) {
            Ok(m) => m,
            Err(e) => {
                return Err(e);
            },
        };
        if meta.writer {
            return Err(PageError::PageInUseForWrite);
        }
        let updated = PageMeta {
            index: meta.index,
            pins: meta.pins,
            readers: meta.readers + 1,
            writer: meta.writer,
        };
        self.page_state.insert(page.offset, updated);
        proof {
            assert(self.dir().dom() =~= old(self).dir().dom());
        }
        Ok(meta.index)
    }

    /// Give back one read guard's access to `page`.
    fn release_read(&mut self, page: &PageId) -> (r: Result<(), PageError>)
        requires
            old(self).wf(),
            old(self).dir().contains_key(page.offset) ==> old(self).dir()[page.offset].readers
                >= 1,
        ensures
            final(self).wf(),
            final(self).storage == old(self).storage,
            final(self).pages@ == old(self).pages@,
            forall|k: usize|
                k != page.offset ==> #[trigger] final(self).dir().contains_key(k) == old(
                    self,
                ).dir().contains_key(k),
            forall|k: usize|
                k != page.offset && old(self).dir().contains_key(k) ==> #[trigger] final(self).dir()[k] == old(
                    self,
                ).dir()[k],
            old(self).dir().contains_key(page.offset) ==> {
                &&& r == Ok::<(), PageError>(())
                &&& final(self).dir().contains_key(page.offset)
                &&& final(self).dir()[page.offset].index == old(self).dir()[page.offset].index
                &&& final(self).dir()[page.offset].pins == old(self).dir()[page.offset].pins
                &&& final(self).dir()[page.offset].readers == old(self).dir()[page.offset].readers
                    - 1
                &&& final(self).dir()[page.offset].writer == old(self).dir()[page.offset].writer
            },
            !old(self).dir().contains_key(page.offset) ==> {
                &&& r == Err::<(), PageError>(PageError::PageNotInPool)
                &&& final(self).dir() == old(self).dir()
            },
    {
        let meta = match self.get_meta(page) {
            Ok(m) => m,
            Err(e) => {
                return Err(e);
            },
        };
        let updated = PageMeta {
            index: meta.index,
            pins: meta.pins,
            readers: meta.readers - 1,
            writer: meta.writer,
        };
        self.page_state.insert(page.offset, updated);
        proof {
            assert(self.dir().dom() =~= old(self).dir().dom());
        }
        Ok(())
    }

    /// Grant exclusive write access to `page`: fails while a write guard
    /// or any read guard is outstanding, otherwise raises the writer flag
    /// and hands back the page's slot index.
    fn try_get_write(&mut self, page: &PageId) -> (r: Result<usize, PageError>)
        requires
            old(self).wf(),
        ensures
            final(self).wf(),
            final(self).storage == old(self).storage,
            final(self).pages@ == old(self).pages@,
            forall|k: usize|
                k != page.offset ==> #[trigger] final(self).dir().contains_key(k) == old(
                    self,
                ).dir().contains_key(k),
            forall|k: usize|
                k != page.offset && old(self).dir().contains_key(k) ==> #[trigger] final(self).dir()[k] == old(
                    self,
                ).dir()[k],
            !old(self).dir().contains_key(page.offset) ==> r == Err::<usize, PageError>(
                PageError::PageNotInPool,
            ) && final(self).dir() == old(self).dir(),
            old(self).dir().contains_key(page.offset) && old(self).dir()[page.offset].writer ==> r
                == Err::<usize, PageError>(PageError::PageInUseForWrite) && final(self).dir()
                == old(self).dir(),
            old(self).dir().contains_key(page.offset) && !old(self).dir()[page.offset].writer
                && old(self).dir()[page.offset].readers > 0 ==> r == Err::<usize, PageError>(
                PageError::PageInUseForRead,
            ) && final(self).dir() == old(self).dir(),
            old(self).dir().contains_key(page.offset) && !old(self).dir()[page.offset].writer
                && old(self).dir()[page.offset].readers == 0 ==> {
                &&& r == Ok::<usize, PageError>(old(self).dir()[page.offset].index)
                &&& final(self).dir().contains_key(page.offset)
                &&& final(self).dir()[page.offset].index == old(self).dir()[page.offset].index
                &&& final(self).dir()[page.offset].pins == old(self).dir()[page.offset].pins
                &&& final(self).dir()[page.offset].readers == 0
                &&& final(self).dir()[page.offset].writer
            },
    {
        let meta = match self.get_meta(page) {
            Ok(m) => m,
            Err(e) => {
                return Err(e);
            },
        };
        if meta.writer {
            return Err(PageError::PageInUseForWrite);
        }
        if meta.readers > 0 {
            return Err(PageError::PageInUseForRead);
        }
        let updated = PageMeta {
            index: meta.index,
            pins: meta.pins,
            readers: meta.readers,
            writer: true,
        };
        self.page_state.insert(page.offset, updated);
        proof {
            assert(self.dir().dom() =~= old(self).dir().dom());
        }
        Ok(meta.index)
    }

    /// Give back a write guard's exclusive access to `page`.
    fn release_write(&mut self, page: &PageId) -> (r: Result<(), PageError>)
        requires
            old(self).wf(),
        ensures
            final(self).wf(),
            final(self).storage == old(self).storage,
            final(self).pages@ == old(self).pages@,
            forall|k: usize|
                k != page.offset ==> #[trigger] final(self).dir().contains_key(k) == old(
                    self,
                ).dir().contains_key(k),
            forall|k: usize|
                k != page.offset && old(self).dir().contains_key(k) ==> #[trigger] final(self).dir()[k] == old(
                    self,
                ).dir()[k],
            old(self).dir().contains_key(page.offset) ==> {
                &&& r == Ok::<(), PageError>(())
                &&& final(self).dir().contains_key(page.offset)
                &&& final(self).dir()[page.offset].index == old(self).dir()[page.offset].index
                &&& final(self).dir()[page.offset].pins == old(self).dir()[page.offset].pins
                &&& final(self).dir()[page.offset].readers == old(self).dir()[page.offset].readers
                &&& !final(self).dir()[page.offset].writer
            },
            !old(self).dir().contains_key(page.offset) ==> {
                &&& r == Err::<(), PageError>(PageError::PageNotInPool)
                &&& final(self).dir() == old(self).dir()
            },
    {
        let meta = match self.get_meta(page) {
            Ok(m) => m,
            Err(e) => {
                return Err(e);
            },
        };
        let updated = PageMeta {
            index: meta.index,
            pins: meta.pins,
            readers: meta.readers,
            writer: false,
        };
        self.page_state.insert(page.offset, updated);
        proof {
            assert(self.dir().dom() =~= old(self).dir().dom());
        }
        Ok(())
    }

    /// Read one byte of the slot at `index`.
    fn read_byte(&self, index: usize, offset: usize) -> (b: u8)
        requires
            self.wf(),
            index < self.pages@.len(),
            offset < PAGE_SIZE,
        ensures
            b == self.pages@[index as int].bytes()[offset as int],
    {
        self.pages[index].buf[offset]
    }

    /// Overwrite one byte of the slot at `index`.
    fn write_byte(&mut self, index: usize, offset: usize, value: u8)
        requires
            old(self).wf(),
            index < old(self).pages@.len(),
            offset < PAGE_SIZE,
        ensures
            final(self).wf(),
            final(self).storage == old(self).storage,
            final(self).dir() == old(self).dir(),
            final(self).pages@.len() == old(self).pages@.len(),
            forall|i: int|
                0 <= i < old(self).pages@.len() && i != index ==> #[trigger] final(self).pages@[i]
                    == old(self).pages@[i],
            final(self).pages@[index as int].bytes() == old(self).pages@[index as int].bytes().update(
                offset as int,
                value,
            ),
    {
        self.pages[index].buf[offset] = value;
    }
}

/// The buffer pool: sole owner of the slot arena and the page directory,
/// and the only component that mutates residency or access state. All
/// operations run to completion against `&mut self`; a conflicting access
/// request fails at once instead of waiting.
pub struct PageStore<S: Storage> {
    pool: PoolInternal<S>,
}

impl<S: Storage> PageStore<S> {
    /// The pool invariant, established by `new` and preserved by every
    /// operation.
    pub closed spec fn wf(self) -> bool {
        self.pool.wf()
    }

    /// Whether `id` currently has a resident page.
    pub closed spec fn resident(self, id: PageId) -> bool {
        self.pool.dir().contains_key(id.offset)
    }

    /// Outstanding pins of `id`; zero while `id` is not resident.
    pub closed spec fn pins(self, id: PageId) -> usize {
        if self.pool.dir().contains_key(id.offset) {
            self.pool.dir()[id.offset].pins
        } else {
            0
        }
    }

    /// Outstanding read guards of `id`; zero while `id` is not resident.
    pub closed spec fn readers(self, id: PageId) -> usize {
        if self.pool.dir().contains_key(id.offset) {
            self.pool.dir()[id.offset].readers
        } else {
            0
        }
    }

    /// Whether a write guard of `id` is outstanding; false while `id` is
    /// not resident.
    pub closed spec fn writer_active(self, id: PageId) -> bool {
        self.pool.dir().contains_key(id.offset) && self.pool.dir()[id.offset].writer
    }

    /// The resident bytes of `id`; empty while `id` is not resident.
    pub closed spec fn page_bytes(self, id: PageId) -> Seq<u8> {
        if self.pool.dir().contains_key(id.offset) {
            self.pool.pages@[self.pool.dir()[id.offset].index as int].bytes()
        } else {
            Seq::empty()
        }
    }

    /// How many slots of the arena are claimed.
    pub closed spec fn slot_count(self) -> nat {
        self.pool.pages@.len()
    }

    /// How many distinct page identifiers are resident.
    pub closed spec fn resident_count(self) -> nat {
        self.pool.dir().dom().len()
    }

    /// The abstract state of the backend this pool was built over.
    pub closed spec fn storage_state(self) -> Map<usize, Seq<u8>> {
        self.pool.storage.contents()
    }
}

/// The observable state of `id` is the same in `pre` and `post`:
/// residency, pin count, guard bookkeeping and resident bytes.
pub open spec fn page_state_eq<S: Storage>(pre: PageStore<S>, post: PageStore<S>, id: PageId) -> bool {
    &&& post.resident(id) == pre.resident(id)
    &&& post.pins(id) == pre.pins(id)
    &&& post.readers(id) == pre.readers(id)
    &&& post.writer_active(id) == pre.writer_active(id)
    &&& post.page_bytes(id) == pre.page_bytes(id)
}

/// Every page other than `id` is untouched between `pre` and `post`.
pub open spec fn unchanged_except<S: Storage>(pre: PageStore<S>, post: PageStore<S>, id: PageId) -> bool {
    forall|o: PageId| o != id ==> #[trigger] page_state_eq(pre, post, o)
}

/// A pool transition that leaves every directory entry but `id`'s alone,
/// and every slot claimed before it alone, leaves the observable state of
/// every page but `id` alone.
proof fn lemma_pool_transition_other_pages<S: Storage>(
    pre: PageStore<S>,
    post: PageStore<S>,
    id: PageId,
)
    requires
        pre.pool.wf(),
        forall|k: usize|
            k != id.offset ==> #[trigger] post.pool.dir().contains_key(k) == pre.pool.dir().contains_key(k),
        forall|k: usize|
            k != id.offset && pre.pool.dir().contains_key(k) ==> #[trigger] post.pool.dir()[k]
                == pre.pool.dir()[k],
        forall|i: int|
            0 <= i < pre.pool.pages@.len() ==> #[trigger] post.pool.pages@[i]
                == pre.pool.pages@[i],
    ensures
        unchanged_except(pre, post, id),
{
    assert forall|o: PageId| o != id implies page_state_eq(pre, post, o) by {
        let k = o.offset;
        assert(k != id.offset);
        if pre.pool.dir().contains_key(k) {
            let i = pre.pool.dir()[k].index as int;
            assert(post.pool.dir()[k] == pre.pool.dir()[k]);
            assert(0 <= i < pre.pool.pages@.len());
            assert(post.pool.pages@[i] == pre.pool.pages@[i]);
        }
    }
}

/// A pool transition that rewrites only the slot `id`'s directory entry
/// points at, and no directory entry, leaves the observable state of
/// every page but `id` alone: no two resident pages share a slot.
proof fn lemma_pool_write_other_pages<S: Storage>(
    pre: PageStore<S>,
    post: PageStore<S>,
    id: PageId,
)
    requires
        pre.pool.wf(),
        pre.pool.dir().contains_key(id.offset),
        post.pool.dir() == pre.pool.dir(),
        post.pool.pages@.len() == pre.pool.pages@.len(),
        forall|i: int|
            0 <= i < pre.pool.pages@.len() && i != pre.pool.dir()[id.offset].index as int
                ==> #[trigger] post.pool.pages@[i] == pre.pool.pages@[i],
    ensures
        unchanged_except(pre, post, id),
{
    assert forall|o: PageId| o != id implies page_state_eq(pre, post, o) by {
        let k = o.offset;
        assert(k != id.offset);
        if pre.pool.dir().contains_key(k) {
            let i = pre.pool.dir()[k].index as int;
            assert(pre.pool.dir()[k].index != pre.pool.dir()[id.offset].index);
            assert(0 <= i < pre.pool.pages@.len());
            assert(post.pool.pages@[i] == pre.pool.pages@[i]);
        }
    }
}

/// A scoped pin of one page: while a caller holds this handle (obtained
/// from a successful pin or allocate call) and has not yet given it back
/// through `PageStore::unpin_page`, the page's pin count stays at least 1.
pub struct PinnedPage {
    id: PageId,
}

/// A read guard: a token of shared, read-only access to one resident
/// page, counted in the pool's reader bookkeeping until it is given back
/// through `PageStore::release_read`.
pub struct ConstPage {
    id: PageId,
}

/// A write guard: the token of exclusive, mutable access to one resident
/// page, held in the pool's writer flag until it is given back through
/// `PageStore::release_write`.
pub struct MutPage {
    id: PageId,
}

impl PinnedPage {
    /// The page this handle pins.
    pub closed spec fn page_id(self) -> PageId {
        self.id
    }
}

impl ConstPage {
    /// The page this guard reads.
    pub closed spec fn page_id(self) -> PageId {
        self.id
    }
}

impl MutPage {
    /// The page this guard writes.
    pub closed spec fn page_id(self) -> PageId {
        self.id
    }
}

impl<S: Storage> PageStore<S> {
    /// A fresh pool over `storage`: no page resident, no slot claimed.
    pub fn new(storage: S) -> (store: PageStore<S>)
        requires
            storage.wf(),
        ensures
            store.wf(),
            store.slot_count() == 0,
            store.resident_count() == 0,
            forall|id: PageId| !store.resident(id),
            store.storage_state() == storage.contents(),
    {
        PageStore { pool: PoolInternal::new(storage) }
    }

    /// Pin `page`, loading it from the backend on first pin. While the
    /// returned handle is outstanding the page stays resident with a pin
    /// count of at least 1. Fails with `PoolIsFull` if a fresh page would
    /// exceed the arena capacity, and with a wrapped `NotFound` if the
    /// backend does not have the page (the zero-filled page then stays
    /// resident, as a pin of it has still been taken).
    pub fn pin_page(&mut self, page: &PageId) -> (r: Result<PinnedPage, PageError>)
        requires
            old(self).wf(),
            old(self).pins(*page) < usize::MAX,
        ensures
            final(self).wf(),
            final(self).storage_state() == old(self).storage_state(),
            unchanged_except(*old(self), *final(self), *page),
            r matches Ok(h) ==> h.page_id() == *page && final(self).resident(*page) && final(self).pins(*page) >= 1,
            old(self).resident(*page) ==> {
                &&& r is Ok
                &&& final(self).resident(*page)
                &&& final(self).pins(*page) == old(self).pins(*page) + 1
                &&& final(self).readers(*page) == old(self).readers(*page)
                &&& final(self).writer_active(*page) == old(self).writer_active(*page)
                &&& final(self).page_bytes(*page) == old(self).page_bytes(*page)
                &&& final(self).slot_count() == old(self).slot_count()
                &&& final(self).resident_count() == old(self).resident_count()
            },
            !old(self).resident(*page) && old(self).slot_count() == POOL_SIZE ==> {
                &&& r == Err::<PinnedPage, PageError>(PageError::PoolIsFull)
                &&& page_state_eq(*old(self), *final(self), *page)
                &&& final(self).slot_count() == old(self).slot_count()
                &&& final(self).resident_count() == old(self).resident_count()
            },
            !old(self).resident(*page) && old(self).slot_count() < POOL_SIZE ==> {
                &&& final(self).resident(*page)
                &&& final(self).pins(*page) == 1
                &&& final(self).readers(*page) == 0
                &&& !final(self).writer_active(*page)
                &&& final(self).slot_count() == old(self).slot_count() + 1
                &&& final(self).resident_count() == old(self).resident_count() + 1
                &&& if old(self).storage_state().contains_key(page.offset) {
                    r is Ok && final(self).page_bytes(*page) == old(self).storage_state()[page.offset]
                } else {
                    r == Err::<PinnedPage, PageError>(PageError::Storage(StorageError::NotFound))
                        && final(self).page_bytes(*page) == zero_page()
                }
            },
    {
        let result = self.pool.pin_page(page);
        proof {
            lemma_pool_transition_other_pages(*old(self), *self, *page);
        }
        match result {
            Ok(()) => Ok(PinnedPage { id: *page }),
            Err(e) => Err(e),
        }
    }

    /// Ask the backend to create a brand-new zero-filled page under this
    /// identifier, then pin it. Fails with the backend's
    /// `PageAlreadyExists`, wrapped, if the identifier is already on the
    /// backend; otherwise behaves as `pin_page` on a page the backend has.
    pub fn allocate_page(&mut self, page: &PageId) -> (r: Result<PinnedPage, PageError>)
        requires
            old(self).wf(),
            old(self).pins(*page) < usize::MAX,
        ensures
            final(self).wf(),
            unchanged_except(*old(self), *final(self), *page),
            r matches Ok(h) ==> h.page_id() == *page && final(self).resident(*page) && final(self).pins(*page) >= 1,
            old(self).storage_state().contains_key(page.offset) ==> {
                &&& r == Err::<PinnedPage, PageError>(
                    PageError::Storage(StorageError::PageAlreadyExists),
                )
                &&& final(self).storage_state() == old(self).storage_state()
                &&& page_state_eq(*old(self), *final(self), *page)
                &&& final(self).slot_count() == old(self).slot_count()
                &&& final(self).resident_count() == old(self).resident_count()
            },
            !old(self).storage_state().contains_key(page.offset) ==> {
                &&& final(self).storage_state() == old(self).storage_state().insert(
                    page.offset,
                    zero_page(),
                )
                &&& old(self).resident(*page) ==> {
                    &&& r is Ok
                    &&& final(self).pins(*page) == old(self).pins(*page) + 1
                    &&& final(self).readers(*page) == old(self).readers(*page)
                    &&& final(self).writer_active(*page) == old(self).writer_active(*page)
                    &&& final(self).page_bytes(*page) == old(self).page_bytes(*page)
                    &&& final(self).slot_count() == old(self).slot_count()
                    &&& final(self).resident_count() == old(self).resident_count()
                }
                &&& !old(self).resident(*page) && old(self).slot_count() == POOL_SIZE ==> {
                    &&& r == Err::<PinnedPage, PageError>(PageError::PoolIsFull)
                    &&& page_state_eq(*old(self), *final(self), *page)
                    &&& final(self).slot_count() == old(self).slot_count()
                    &&& final(self).resident_count() == old(self).resident_count()
                }
                &&& !old(self).resident(*page) && old(self).slot_count() < POOL_SIZE ==> {
                    &&& r is Ok
                    &&& final(self).resident(*page)
                    &&& final(self).pins(*page) == 1
                    &&& final(self).readers(*page) == 0
                    &&& !final(self).writer_active(*page)
                    &&& final(self).page_bytes(*page) == zero_page()
                    &&& final(self).slot_count() == old(self).slot_count() + 1
                    &&& final(self).resident_count() == old(self).resident_count() + 1
                }
            },
    {
        let result = self.pool.create_and_pin_page(page);
        proof {
            lemma_pool_transition_other_pages(*old(self), *self, *page);
        }
        match result {
            Ok(()) => Ok(PinnedPage { id: *page }),
            Err(e) => Err(e),
        }
    }

    /// Give back a pin handle, dropping the page's pin count by exactly 1.
    /// The page stays resident whatever the count: the pool never evicts.
    pub fn unpin_page(&mut self, pin: PinnedPage) -> (r: Result<(), PageError>)
        requires
            old(self).wf(),
            old(self).resident(pin.page_id()) ==> old(self).pins(pin.page_id()) >= 1,
        ensures
            final(self).wf(),
            final(self).storage_state() == old(self).storage_state(),
            final(self).slot_count() == old(self).slot_count(),
            final(self).resident_count() == old(self).resident_count(),
            unchanged_except(*old(self), *final(self), pin.page_id()),
            old(self).resident(pin.page_id()) ==> {
                &&& r == Ok::<(), PageError>(())
                &&& final(self).resident(pin.page_id())
                &&& final(self).pins(pin.page_id()) == old(self).pins(pin.page_id()) - 1
                &&& final(self).readers(pin.page_id()) == old(self).readers(pin.page_id())
                &&& final(self).writer_active(pin.page_id()) == old(self).writer_active(
                    pin.page_id(),
                )
                &&& final(self).page_bytes(pin.page_id()) == old(self).page_bytes(pin.page_id())
            },
            !old(self).resident(pin.page_id()) ==> {
                &&& r == Err::<(), PageError>(PageError::PageNotInPool)
                &&& page_state_eq(*old(self), *final(self), pin.page_id())
            },
    {
        let result = self.pool.unpin_page(&pin.id);
        proof {
            lemma_pool_transition_other_pages(*old(self), *self, pin.page_id());
        }
        result
    }

    /// Give back a read guard, dropping the page's reader count by
    /// exactly 1.
    pub fn release_read(&mut self, guard: ConstPage) -> (r: Result<(), PageError>)
        requires
            old(self).wf(),
            old(self).resident(guard.page_id()) ==> old(self).readers(guard.page_id()) >= 1,
        ensures
            final(self).wf(),
            final(self).storage_state() == old(self).storage_state(),
            final(self).slot_count() == old(self).slot_count(),
            final(self).resident_count() == old(self).resident_count(),
            unchanged_except(*old(self), *final(self), guard.page_id()),
            old(self).resident(guard.page_id()) ==> {
                &&& r == Ok::<(), PageError>(())
                &&& final(self).resident(guard.page_id())
                &&& final(self).pins(guard.page_id()) == old(self).pins(guard.page_id())
                &&& final(self).readers(guard.page_id()) == old(self).readers(guard.page_id()) - 1
                &&& final(self).writer_active(guard.page_id()) == old(self).writer_active(
                    guard.page_id(),
                )
                &&& final(self).page_bytes(guard.page_id()) == old(self).page_bytes(
                    guard.page_id(),
                )
            },
            !old(self).resident(guard.page_id()) ==> {
                &&& r == Err::<(), PageError>(PageError::PageNotInPool)
                &&& page_state_eq(*old(self), *final(self), guard.page_id())
            },
    {
        let result = self.pool.release_read(&guard.id);
        proof {
            lemma_pool_transition_other_pages(*old(self), *self, guard.page_id());
        }
        result
    }

    /// Give back a write guard, clearing the page's writer flag.
    pub fn release_write(&mut self, guard: MutPage) -> (r: Result<(), PageError>)
        requires
            old(self).wf(),
        ensures
            final(self).wf(),
            final(self).storage_state() == old(self).storage_state(),
            final(self).slot_count() == old(self).slot_count(),
            final(self).resident_count() == old(self).resident_count(),
            unchanged_except(*old(self), *final(self), guard.page_id()),
            old(self).resident(guard.page_id()) ==> {
                &&& r == Ok::<(), PageError>(())
                &&& final(self).resident(guard.page_id())
                &&& final(self).pins(guard.page_id()) == old(self).pins(guard.page_id())
                &&& final(self).readers(guard.page_id()) == old(self).readers(guard.page_id())
                &&& !final(self).writer_active(guard.page_id())
                &&& final(self).page_bytes(guard.page_id()) == old(self).page_bytes(
                    guard.page_id(),
                )
            },
            !old(self).resident(guard.page_id()) ==> {
                &&& r == Err::<(), PageError>(PageError::PageNotInPool)
                &&& page_state_eq(*old(self), *final(self), guard.page_id())
            },
    {
        let result = self.pool.release_write(&guard.id);
        proof {
            lemma_pool_transition_other_pages(*old(self), *self, guard.page_id());
        }
        result
    }
}

impl PinnedPage {
    /// Ask for shared read access to the pinned page. Fails with
    /// `PageInUseForWrite` while a write guard is outstanding; any number
    /// of read guards may coexist.
    pub fn try_read<S: Storage>(&self, store: &mut PageStore<S>) -> (r: Result<
        ConstPage,
        PageError,
    >)
        requires
            old(store).wf(),
            old(store).readers(self.page_id()) < usize::MAX,
        ensures
            final(store).wf(),
            final(store).storage_state() == old(store).storage_state(),
            final(store).slot_count() == old(store).slot_count(),
            final(store).resident_count() == old(store).resident_count(),
            unchanged_except(*old(store), *final(store), self.page_id()),
            r matches Ok(g) ==> g.page_id() == self.page_id(),
            !old(store).resident(self.page_id()) ==> {
                &&& r == Err::<ConstPage, PageError>(PageError::PageNotInPool)
                &&& page_state_eq(*old(store), *final(store), self.page_id())
            },
            old(store).resident(self.page_id()) && old(store).writer_active(self.page_id())
                ==> {
                &&& r == Err::<ConstPage, PageError>(PageError::PageInUseForWrite)
                &&& page_state_eq(*old(store), *final(store), self.page_id())
            },
            old(store).resident(self.page_id()) && !old(store).writer_active(self.page_id())
                ==> {
                &&& r is Ok
                &&& final(store).resident(self.page_id())
                &&& final(store).pins(self.page_id()) == old(store).pins(self.page_id())
                &&& final(store).readers(self.page_id()) == old(store).readers(self.page_id())
                    + 1
                &&& !final(store).writer_active(self.page_id())
                &&& final(store).page_bytes(self.page_id()) == old(store).page_bytes(
                    self.page_id(),
                )
            },
    {
        let result = store.pool.try_get_read(&self.id);
        proof {
            lemma_pool_transition_other_pages(*old(store), *store, self.page_id());
        }
        match result {
            Ok(_) => Ok(ConstPage { id: self.id }),
            Err(e) => Err(e),
        }
    }

    /// Ask for exclusive write access to the pinned page. Fails with
    /// `PageInUseForWrite` while another write guard is outstanding, and
    /// with `PageInUseForRead` while any read guard is.
    pub fn try_write<S: Storage>(&self, store: &mut PageStore<S>) -> (r: Result<
        MutPage,
        PageError,
    >)
        requires
            old(store).wf(),
        ensures
            final(store).wf(),
            final(store).storage_state() == old(store).storage_state(),
            final(store).slot_count() == old(store).slot_count(),
            final(store).resident_count() == old(store).resident_count(),
            unchanged_except(*old(store), *final(store), self.page_id()),
            r matches Ok(g) ==> g.page_id() == self.page_id(),
            !old(store).resident(self.page_id()) ==> {
                &&& r == Err::<MutPage, PageError>(PageError::PageNotInPool)
                &&& page_state_eq(*old(store), *final(store), self.page_id())
            },
            old(store).resident(self.page_id()) && old(store).writer_active(self.page_id())
                ==> {
                &&& r == Err::<MutPage, PageError>(PageError::PageInUseForWrite)
                &&& page_state_eq(*old(store), *final(store), self.page_id())
            },
            old(store).resident(self.page_id()) && !old(store).writer_active(self.page_id())
                && old(store).readers(self.page_id()) > 0 ==> {
                &&& r == Err::<MutPage, PageError>(PageError::PageInUseForRead)
                &&& page_state_eq(*old(store), *final(store), self.page_id())
            },
            old(store).resident(self.page_id()) && !old(store).writer_active(self.page_id())
                && old(store).readers(self.page_id()) == 0 ==> {
                &&& r is Ok
                &&& final(store).resident(self.page_id())
                &&& final(store).pins(self.page_id()) == old(store).pins(self.page_id())
                &&& final(store).readers(self.page_id()) == 0
                &&& final(store).writer_active(self.page_id())
                &&& final(store).page_bytes(self.page_id()) == old(store).page_bytes(
                    self.page_id(),
                )
            },
    {
        let result = store.pool.try_get_write(&self.id);
        proof {
            lemma_pool_transition_other_pages(*old(store), *store, self.page_id());
        }
        match result {
            Ok(_) => Ok(MutPage { id: self.id }),
            Err(e) => Err(e),
        }
    }
}

impl ConstPage {
    /// Read one byte of the guarded page.
    pub fn read_byte<S: Storage>(&self, store: &PageStore<S>, offset: usize) -> (b: u8)
        requires
            store.wf(),
            store.resident(self.page_id()),
            offset < PAGE_SIZE,
        ensures
            b == store.page_bytes(self.page_id())[offset as int],
    {
        match store.pool.get_meta(&self.id) {
            Ok(meta) => store.pool.read_byte(meta.index, offset),
            Err(_) => vstd::pervasive::unreached(),
        }
    }
}

impl MutPage {
    /// Read one byte of the guarded page: exclusive write access also
    /// grants reading.
    pub fn read_byte<S: Storage>(&self, store: &PageStore<S>, offset: usize) -> (b: u8)
        requires
            store.wf(),
            store.resident(self.page_id()),
            offset < PAGE_SIZE,
        ensures
            b == store.page_bytes(self.page_id())[offset as int],
    {
        match store.pool.get_meta(&self.id) {
            Ok(meta) => store.pool.read_byte(meta.index, offset),
            Err(_) => vstd::pervasive::unreached(),
        }
    }

    /// Overwrite one byte of the guarded page. Only this page changes,
    /// and only at `offset`.
    pub fn write_byte<S: Storage>(&self, store: &mut PageStore<S>, offset: usize, value: u8)
        requires
            old(store).wf(),
            old(store).resident(self.page_id()),
            offset < PAGE_SIZE,
        ensures
            final(store).wf(),
            final(store).storage_state() == old(store).storage_state(),
            final(store).slot_count() == old(store).slot_count(),
            final(store).resident_count() == old(store).resident_count(),
            unchanged_except(*old(store), *final(store), self.page_id()),
            final(store).resident(self.page_id()),
            final(store).pins(self.page_id()) == old(store).pins(self.page_id()),
            final(store).readers(self.page_id()) == old(store).readers(self.page_id()),
            final(store).writer_active(self.page_id()) == old(store).writer_active(
                self.page_id(),
            ),
            final(store).page_bytes(self.page_id()) == old(store).page_bytes(
                self.page_id(),
            ).update(offset as int, value),
    {
        let meta = match store.pool.get_meta(&self.id) {
            Ok(meta) => meta,
            Err(_) => vstd::pervasive::unreached(),
        };
        store.pool.write_byte(meta.index, offset, value);
        proof {
            lemma_pool_write_other_pages(*old(store), *store, self.page_id());
        }
    }
}

/// Law (exclusivity): in a well-formed pool, a page with an outstanding
/// write guard has no outstanding read guard — for every page identifier,
/// at every instant, either no writer is active, or a writer is active
/// and the reader count is zero.
pub proof fn lemma_exclusivity<S: Storage>(store: PageStore<S>, id: PageId)
    requires
        store.wf(),
    ensures
        store.writer_active(id) ==> store.readers(id) == 0,
        !store.writer_active(id) || (store.readers(id) == 0 && store.writer_active(id)),
{
}

/// Law (pin conservation): every pool operation leaves every page other
/// than its target alone, so a page pinned at least once stays pinned at
/// least once across any operation aimed at another page. Together with
/// the contracts of the operations on the page itself — `pin_page` and
/// `allocate_page` raise its pin count by exactly 1, `unpin_page` lowers
/// it by exactly 1, and acquiring, releasing and using guards leave it
/// unchanged — the pin count of a handle's page stays at least 1 for the
/// handle's whole lifetime and drops by exactly 1 when it is given back.
pub proof fn lemma_pin_conservation<S: Storage>(
    pre: PageStore<S>,
    post: PageStore<S>,
    handle: PinnedPage,
    target: PageId,
)
    requires
        pre.pins(handle.page_id()) >= 1,
        unchanged_except(pre, post, target),
        target != handle.page_id(),
    ensures
        post.pins(handle.page_id()) >= 1,
{
    assert(page_state_eq(pre, post, handle.page_id()));
}

/// Law (capacity bound): in a well-formed pool, each resident page
/// identifier claims exactly one slot, so the number of distinct resident
/// identifiers equals the number of claimed slots and never exceeds the
/// arena capacity. Together with the contract of `pin_page` — which fails
/// with `PoolIsFull` exactly when a page not yet resident is pinned while
/// all slots are claimed, and claims no slot for an already-resident page
/// — this bounds the distinct identifiers the pool ever admits.
pub proof fn lemma_capacity_bound<S: Storage>(store: PageStore<S>)
    requires
        store.wf(),
    ensures
        store.resident_count() == store.slot_count(),
        store.slot_count() <= POOL_SIZE,
{
}

/// Law (round trip): bytes put into a resident page while a write guard
/// was held are exactly the bytes a later reader observes, provided the
/// steps in between — such as releasing the write guard and acquiring a
/// read guard — left the page's resident bytes alone, as their contracts
/// say they do. No backend round trip is involved while the page stays
/// resident.
pub proof fn lemma_round_trip<S: Storage>(
    written: PageStore<S>,
    released: PageStore<S>,
    reading: PageStore<S>,
    id: PageId,
    offset: int,
    value: u8,
)
    requires
        written.page_bytes(id)[offset] == value,
        released.page_bytes(id) == written.page_bytes(id),
        reading.page_bytes(id) == released.page_bytes(id),
    ensures
        reading.page_bytes(id)[offset] == value,
{
}

} // verus!
