use wops::FramePool;

#[test]
fn dropped_buffers_return_to_pool() {
    let mut pool = FramePool::new(3);
    {
        let buffer = pool.acquire(128);
        assert_eq!(buffer.len(), 128);
        pool.recycle(buffer);
    }
    assert_eq!(pool.available(), 1);
    assert_eq!(pool.acquire(64).len(), 64);
}

#[test]
fn reused_buffers_come_back_zeroed() {
    let mut pool = FramePool::new(1);
    let mut buffer = pool.acquire(4);
    buffer.as_mut_slice().copy_from_slice(&[9, 9, 9, 9]);
    pool.recycle(buffer);
    let again = pool.acquire(6);
    assert_eq!(again.as_slice(), &[0, 0, 0, 0, 0, 0]);
    assert_eq!(pool.available(), 0);
}

#[test]
fn pool_keeps_no_more_than_its_capacity() {
    let mut pool = FramePool::new(1);
    let first = pool.acquire(8);
    let second = pool.acquire(8);
    pool.recycle(first);
    pool.recycle(second);
    assert_eq!(pool.available(), 1);
    assert!(pool.acquire(0).is_empty());
}
