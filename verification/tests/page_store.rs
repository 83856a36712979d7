use page_pool::page_store::{PageError, PageId, PageStore, PAGE_SIZE, POOL_SIZE};
use page_pool::storage::{Storage, StorageError, TestStorage};

#[test]
fn test_happy() {
    let mut page_store = PageStore::new(TestStorage::new());

    {
        let page = page_store.allocate_page(&PageId { offset: 0 }).unwrap();
        let writer = page.try_write(&mut page_store).unwrap();
        writer.write_byte(&mut page_store, 0, 255u8);
        page_store.release_write(writer).unwrap();

        let reader = page.try_read(&mut page_store).unwrap();
        assert_eq!(reader.read_byte(&page_store, 0), 255u8);
        page_store.release_read(reader).unwrap();
        page_store.unpin_page(page).unwrap();
    }

    {
        let page = page_store.pin_page(&PageId { offset: 0 }).unwrap();
        let reader = page.try_read(&mut page_store).unwrap();
        assert_eq!(reader.read_byte(&page_store, 0), 255u8);
        page_store.release_read(reader).unwrap();
        page_store.unpin_page(page).unwrap();
    }
}

#[test]
fn test_writer_exclusion() {
    let mut page_store = PageStore::new(TestStorage::new());
    let page = page_store.allocate_page(&PageId { offset: 0 }).unwrap();
    let reader = page.try_read(&mut page_store).unwrap();

    assert_eq!(
        page.try_write(&mut page_store).err().unwrap(),
        PageError::PageInUseForRead
    );

    let _v = reader.read_byte(&page_store, 0);
    page_store.release_read(reader).unwrap();
}

#[test]
fn test_reader_exclusion() {
    let mut page_store = PageStore::new(TestStorage::new());
    let page = page_store.allocate_page(&PageId { offset: 0 }).unwrap();
    let writer = page.try_write(&mut page_store).unwrap();

    assert_eq!(
        page.try_read(&mut page_store).err().unwrap(),
        PageError::PageInUseForWrite
    );

    writer.write_byte(&mut page_store, 0, 255u8);
    page_store.release_write(writer).unwrap();
}

#[test]
fn fresh_page_is_zero_filled() {
    let mut page_store = PageStore::new(TestStorage::new());
    let page = page_store.allocate_page(&PageId { offset: 3 }).unwrap();
    let reader = page.try_read(&mut page_store).unwrap();
    assert_eq!(reader.read_byte(&page_store, 0), 0u8);
    assert_eq!(reader.read_byte(&page_store, PAGE_SIZE - 1), 0u8);
    page_store.release_read(reader).unwrap();
    page_store.unpin_page(page).unwrap();
}

#[test]
fn several_read_guards_coexist() {
    let mut page_store = PageStore::new(TestStorage::new());
    let page = page_store.allocate_page(&PageId { offset: 0 }).unwrap();
    let first = page.try_read(&mut page_store).unwrap();
    let second = page.try_read(&mut page_store).unwrap();
    assert_eq!(first.read_byte(&page_store, 10), 0u8);
    assert_eq!(second.read_byte(&page_store, 10), 0u8);
    page_store.release_read(first).unwrap();

    // one reader is still outstanding, so a writer keeps failing
    assert_eq!(
        page.try_write(&mut page_store).err().unwrap(),
        PageError::PageInUseForRead
    );

    page_store.release_read(second).unwrap();
    let writer = page.try_write(&mut page_store).unwrap();
    page_store.release_write(writer).unwrap();
}

#[test]
fn write_guard_also_reads() {
    let mut page_store = PageStore::new(TestStorage::new());
    let page = page_store.allocate_page(&PageId { offset: 0 }).unwrap();
    let writer = page.try_write(&mut page_store).unwrap();
    writer.write_byte(&mut page_store, 7, 42u8);
    assert_eq!(writer.read_byte(&page_store, 7), 42u8);
    assert_eq!(writer.read_byte(&page_store, 8), 0u8);
    page_store.release_write(writer).unwrap();
}

#[test]
fn second_write_guard_fails() {
    let mut page_store = PageStore::new(TestStorage::new());
    let page = page_store.allocate_page(&PageId { offset: 0 }).unwrap();
    let writer = page.try_write(&mut page_store).unwrap();
    assert_eq!(
        page.try_write(&mut page_store).err().unwrap(),
        PageError::PageInUseForWrite
    );
    page_store.release_write(writer).unwrap();
}

#[test]
fn pool_capacity_is_exhausted_by_distinct_pages() {
    let mut page_store = PageStore::new(TestStorage::new());
    let mut handles = Vec::new();
    for offset in 0..POOL_SIZE {
        handles.push(page_store.allocate_page(&PageId { offset }).unwrap());
    }

    // one more distinct page exceeds the arena capacity
    assert_eq!(
        page_store
            .allocate_page(&PageId { offset: POOL_SIZE })
            .err()
            .unwrap(),
        PageError::PoolIsFull
    );

    // pinning an already-resident page consumes no new capacity
    let again = page_store.pin_page(&PageId { offset: 0 }).unwrap();
    page_store.unpin_page(again).unwrap();

    for handle in handles {
        page_store.unpin_page(handle).unwrap();
    }

    // releasing pins reclaims nothing: the pool does not evict
    assert_eq!(
        page_store.pin_page(&PageId { offset: POOL_SIZE }).err().unwrap(),
        PageError::PoolIsFull
    );
}

#[test]
fn allocating_the_same_page_twice_fails() {
    let mut page_store = PageStore::new(TestStorage::new());
    let first = page_store.allocate_page(&PageId { offset: 0 }).unwrap();
    assert_eq!(
        page_store.allocate_page(&PageId { offset: 0 }).err().unwrap(),
        PageError::Storage(StorageError::PageAlreadyExists)
    );
    page_store.unpin_page(first).unwrap();
}

#[test]
fn pinning_a_page_the_backend_lacks_fails() {
    let mut page_store = PageStore::new(TestStorage::new());
    assert_eq!(
        page_store.pin_page(&PageId { offset: 9 }).err().unwrap(),
        PageError::Storage(StorageError::NotFound)
    );

    // the failed pin has still made the page resident, zero-filled and
    // pinned once, so pinning again succeeds without the backend
    let page = page_store.pin_page(&PageId { offset: 9 }).unwrap();
    let reader = page.try_read(&mut page_store).unwrap();
    assert_eq!(reader.read_byte(&page_store, 0), 0u8);
    page_store.release_read(reader).unwrap();
    page_store.unpin_page(page).unwrap();
}

#[test]
fn backend_bytes_are_loaded_on_first_pin() {
    let mut storage = TestStorage::new();
    let mut bytes = vec![0u8; PAGE_SIZE];
    bytes[0] = 11u8;
    bytes[PAGE_SIZE - 1] = 22u8;
    storage.write_page(&bytes, &PageId { offset: 8 }).unwrap();

    let mut page_store = PageStore::new(storage);
    let page = page_store.pin_page(&PageId { offset: 8 }).unwrap();
    let reader = page.try_read(&mut page_store).unwrap();
    assert_eq!(reader.read_byte(&page_store, 0), 11u8);
    assert_eq!(reader.read_byte(&page_store, 1), 0u8);
    assert_eq!(reader.read_byte(&page_store, PAGE_SIZE - 1), 22u8);
    page_store.release_read(reader).unwrap();
    page_store.unpin_page(page).unwrap();
}

#[test]
fn foreign_handle_is_not_in_pool() {
    let mut first_store = PageStore::new(TestStorage::new());
    let mut second_store = PageStore::new(TestStorage::new());
    let page = first_store.allocate_page(&PageId { offset: 0 }).unwrap();

    // the handle pins a page of the first store only
    assert_eq!(
        page.try_read(&mut second_store).err().unwrap(),
        PageError::PageNotInPool
    );
    assert_eq!(
        page.try_write(&mut second_store).err().unwrap(),
        PageError::PageNotInPool
    );
    assert_eq!(
        second_store.unpin_page(page).err().unwrap(),
        PageError::PageNotInPool
    );
}

#[test]
fn round_trip_survives_guard_turnover() {
    let mut page_store = PageStore::new(TestStorage::new());
    let page = page_store.allocate_page(&PageId { offset: 5 }).unwrap();

    let writer = page.try_write(&mut page_store).unwrap();
    writer.write_byte(&mut page_store, 100, 1u8);
    writer.write_byte(&mut page_store, 200, 2u8);
    writer.write_byte(&mut page_store, 100, 3u8);
    page_store.release_write(writer).unwrap();

    let reader = page.try_read(&mut page_store).unwrap();
    assert_eq!(reader.read_byte(&page_store, 100), 3u8);
    assert_eq!(reader.read_byte(&page_store, 200), 2u8);
    assert_eq!(reader.read_byte(&page_store, 300), 0u8);
    page_store.release_read(reader).unwrap();
    page_store.unpin_page(page).unwrap();

    // a second handle on the still-resident page sees the same bytes
    let page = page_store.pin_page(&PageId { offset: 5 }).unwrap();
    let reader = page.try_read(&mut page_store).unwrap();
    assert_eq!(reader.read_byte(&page_store, 100), 3u8);
    assert_eq!(reader.read_byte(&page_store, 200), 2u8);
    page_store.release_read(reader).unwrap();
    page_store.unpin_page(page).unwrap();
}

#[test]
fn pages_do_not_alias() {
    let mut page_store = PageStore::new(TestStorage::new());
    let first = page_store.allocate_page(&PageId { offset: 0 }).unwrap();
    let second = page_store.allocate_page(&PageId { offset: 1 }).unwrap();

    let writer = first.try_write(&mut page_store).unwrap();
    writer.write_byte(&mut page_store, 0, 255u8);
    page_store.release_write(writer).unwrap();

    // the write guard of one page does not block, nor touch, the other
    let reader = second.try_read(&mut page_store).unwrap();
    assert_eq!(reader.read_byte(&page_store, 0), 0u8);
    page_store.release_read(reader).unwrap();

    page_store.unpin_page(first).unwrap();
    page_store.unpin_page(second).unwrap();
}
