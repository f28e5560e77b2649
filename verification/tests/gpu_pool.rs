use unemups4::gpu::buffer_pool::{
    size_class, CacheBufferPool, PoolAlloc, PooledBuffer, BLOCK_BYTES, MIN_CLASS,
};

#[test]
fn small_sizes_round_to_power_of_two_class() {
    assert_eq!(size_class(1), MIN_CLASS);
    assert_eq!(size_class(16), MIN_CLASS);
    assert_eq!(size_class(MIN_CLASS + 1), MIN_CLASS * 2);
    assert_eq!(size_class(BLOCK_BYTES), BLOCK_BYTES);
}

#[test]
fn oversized_buffer_gets_exact_class_not_power_of_two() {
    let twenty_four_mb = 24 * 1024 * 1024;
    assert_eq!(size_class(twenty_four_mb), twenty_four_mb);
    assert_eq!(BLOCK_BYTES.max(size_class(twenty_four_mb)), twenty_four_mb);
}

#[test]
fn class_does_not_panic_on_overflow() {
    let huge = u64::MAX - 1;
    assert_eq!(size_class(huge), huge);
}

#[test]
fn a_block_is_asked_for_once_and_then_shared() {
    let mut pool = CacheBufferPool::new();
    let bytes = match pool.alloc_region(1000, 256, 0xFF, 3) {
        PoolAlloc::NeedBlock { class, bytes } => {
            assert_eq!(class, 1024);
            bytes
        }
        _ => panic!("an empty pool has no room"),
    };
    assert_eq!(bytes, BLOCK_BYTES);
    pool.add_block(bytes, 3);
    let first = match pool.alloc_region(1000, 256, 0xFF, 3) {
        PoolAlloc::Fresh(r) => r,
        _ => panic!("the new block has room"),
    };
    let second = match pool.alloc_region(1000, 256, 0xFF, 3) {
        PoolAlloc::Fresh(r) => r,
        _ => panic!("the block still has room"),
    };
    assert_eq!((first.block, first.offset, first.class), (0, 0, 1024));
    assert_eq!((second.block, second.offset, second.class), (0, 1024, 1024));

    pool.recycle(PooledBuffer { buffer: 7, region: first });
    match pool.alloc_region(1024, 256, 0xFF, 3) {
        PoolAlloc::Recycled(r) => assert_eq!((r.block, r.offset), (0, 0)),
        _ => panic!("a recycled region of the class is taken first"),
    }
}
