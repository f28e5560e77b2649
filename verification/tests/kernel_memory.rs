use unemups4::kernel::bridge::{alloc_io_scratch, delivered, KernelBridge};
use unemups4::kernel::direct_memory::{
    DirectMemory, DIRECT_MEMORY_POOL_BASE, DIRECT_MEMORY_POOL_SIZE,
};
use unemups4::kernel::process::{
    alloc_savedata_mount_point, tls_arena_lookup_or_alloc, AfterMap, HostDir, Process, Region,
};
use unemups4::kernel::tls::TlsKeys;
use unemups4::table::Table;
use std::cell::Cell;
use std::collections::HashMap;

#[test]
fn same_tid_is_stable_and_allocates_once() {
    let mut arenas: HashMap<u32, u64> = HashMap::new();
    let calls = Cell::new(0u32);
    let alloc = || {
        calls.set(calls.get() + 1);
        Ok(0x1000 + u64::from(calls.get()) * 0x10000)
    };

    let a = tls_arena_lookup_or_alloc(&mut arenas, 7, alloc).unwrap();
    let b = tls_arena_lookup_or_alloc(&mut arenas, 7, alloc).unwrap();
    assert_eq!(a, b, "same tid must return a stable base");
    assert_eq!(calls.get(), 1, "allocator must run at most once per tid");
}

#[test]
fn distinct_tids_get_distinct_bases() {
    let mut arenas: HashMap<u32, u64> = HashMap::new();
    let next = Cell::new(0x2000_0000u64);
    let alloc = || {
        let base = next.get();
        next.set(base + 0x10000);
        Ok(base)
    };

    let t1 = tls_arena_lookup_or_alloc(&mut arenas, 1, alloc).unwrap();
    let t2 = tls_arena_lookup_or_alloc(&mut arenas, 2, alloc).unwrap();
    assert_ne!(t1, t2, "distinct threads must see distinct TLS bases");
    assert_eq!(t1, tls_arena_lookup_or_alloc(&mut arenas, 1, alloc).unwrap());
    assert_eq!(t2, tls_arena_lookup_or_alloc(&mut arenas, 2, alloc).unwrap());
}

#[test]
fn alloc_failure_is_not_cached() {
    let mut arenas: HashMap<u32, u64> = HashMap::new();
    let r = tls_arena_lookup_or_alloc(&mut arenas, 3, || Err(12));
    assert_eq!(r, Err(12));
    let ok = tls_arena_lookup_or_alloc(&mut arenas, 3, || Ok(0xDEAD_0000)).unwrap();
    assert_eq!(ok, 0xDEAD_0000);
}

#[test]
fn fresh_mounts_get_sequential_points() {
    let mut mounts: Table<String, String> = Table::new();
    let a = alloc_savedata_mount_point(&mounts, "A");
    assert_eq!(a, "/savedata0");
    mounts.insert(a, "A".to_string());
    let b = alloc_savedata_mount_point(&mounts, "B");
    assert_eq!(b, "/savedata1");
    mounts.insert(b, "B".to_string());
}

#[test]
fn remount_of_same_dir_reuses_its_point() {
    let mut mounts: Table<String, String> = Table::new();
    mounts.insert("/savedata0".to_string(), "A".to_string());
    mounts.insert("/savedata1".to_string(), "B".to_string());
    assert_eq!(alloc_savedata_mount_point(&mounts, "A"), "/savedata0");
    assert_eq!(alloc_savedata_mount_point(&mounts, "B"), "/savedata1");
}

#[test]
fn umount_then_new_mount_never_reuses_a_live_point() {
    let mut mounts: Table<String, String> = Table::new();
    mounts.insert("/savedata1".to_string(), "B".to_string());
    let c = alloc_savedata_mount_point(&mounts, "C");
    assert_eq!(c, "/savedata0");
    assert_ne!(c, "/savedata1", "must not reassign a still-live mount point");
}

#[test]
fn allocate_bumps_dense_and_page_rounds() {
    let mut dm = DirectMemory::new();
    let a = dm.allocate(0x8000, 0).unwrap();
    let b = dm.allocate(0x8000, 0).unwrap();
    let c = dm.allocate(0x1234, 0).unwrap();
    assert_eq!(a, 0);
    assert_eq!(b, 0x8000);
    assert_eq!(c, 0x10000);
    assert_eq!(dm.next_off(), 0x12000);
}

#[test]
fn allocate_honours_alignment() {
    let mut dm = DirectMemory::new();
    let _ = dm.allocate(0x1000, 0).unwrap();
    let off = dm.allocate(0x1000, 0x10_0000).unwrap();
    assert_eq!(off, 0x10_0000);
}

#[test]
fn phys_to_va_is_pool_base_plus_off() {
    assert_eq!(DirectMemory::phys_to_va(0), DIRECT_MEMORY_POOL_BASE);
    assert_eq!(DirectMemory::phys_to_va(0x28000), DIRECT_MEMORY_POOL_BASE + 0x28000);
}

#[test]
fn take_for_release_partial_middle_trims_reservation() {
    let mut dm = DirectMemory::new();
    let base = dm.allocate(0x40000, 0).unwrap();
    let span = dm.take_for_release(base + 0x10000, 0x10000);
    assert_eq!(span, Some((DIRECT_MEMORY_POOL_BASE + 0x10000, 0x10000)));
    assert!(dm.reservation_at(0).is_some());
    assert!(dm.reservation_at(0x20000).is_some());
}

#[test]
fn take_for_release_out_of_pool_is_none() {
    let mut dm = DirectMemory::new();
    let _ = dm.allocate(0x8000, 0).unwrap();
    assert_eq!(dm.take_for_release(DIRECT_MEMORY_POOL_SIZE, 0x1000), None);
    assert_eq!(dm.take_for_release(DIRECT_MEMORY_POOL_SIZE + 0x9999, 0), None);
    let span = dm.take_for_release(0x8000, 0x1000);
    assert_eq!(span, Some((DIRECT_MEMORY_POOL_BASE + 0x8000, 0x1000)));
}

#[test]
fn released_offset_is_not_reused() {
    let mut dm = DirectMemory::new();
    let a = dm.allocate(0x10000, 0).unwrap();
    let _b = dm.allocate(0x10000, 0).unwrap();
    assert_eq!(a, 0);
    let _ = dm.take_for_release(a, 0x10000);
    let fresh = dm.allocate(0x10000, 0).unwrap();
    assert_eq!(fresh, 0x20000);
}

#[test]
fn allocate_returns_none_on_exhaustion() {
    let mut dm = DirectMemory::new();
    assert_eq!(dm.allocate(DIRECT_MEMORY_POOL_SIZE + 0x1000, 0), None);
}

#[test]
fn huge_lengths_and_alignments_are_refused() {
    let mut dm = DirectMemory::new();
    assert_eq!(dm.allocate(u64::MAX, 0), None);
    assert_eq!(dm.allocate(0x1000, u64::MAX), Some(0));
    assert_eq!(dm.allocate(0x1000, u64::MAX), None);
    assert_eq!(dm.next_off(), 0x1000);
}

#[test]
fn a_release_of_no_length_frees_the_rest_of_its_reservation() {
    let mut dm = DirectMemory::new();
    let _ = dm.allocate(0x4000, 0).unwrap();
    assert_eq!(dm.take_for_release(0x1000, 0), Some((DIRECT_MEMORY_POOL_BASE + 0x1000, 0x3000)));
    assert_eq!(dm.reservation_at(0), Some(0x1000));
    assert_eq!(dm.take_for_release(0x9000, 0), Some((DIRECT_MEMORY_POOL_BASE + 0x9000, 0x1000)));
}

#[test]
fn a_release_is_cut_off_at_the_end_of_the_pool() {
    let mut dm = DirectMemory::new();
    let last = DIRECT_MEMORY_POOL_SIZE - 0x1000;
    assert_eq!(
        dm.take_for_release(last, 0x9000),
        Some((DIRECT_MEMORY_POOL_BASE + last, 0x1000))
    );
}

#[test]
fn what_is_available_is_what_is_allocated() {
    let mut process = Process::new();
    assert_eq!(process.allocate_direct_memory(0x3000, 0), Ok(0));
    assert_eq!(
        process.available_direct_memory(0, 0, 0x1_0000),
        Some((0x1_0000, DIRECT_MEMORY_POOL_SIZE - 0x1_0000))
    );
    assert_eq!(process.allocate_direct_memory(0x1000, 0x1_0000), Ok(0x1_0000));
    assert_eq!(process.available_direct_memory(0, 0x1_1000, 0), None);
    assert_eq!(process.available_direct_memory(u64::MAX, 0, 0), None);
    assert_eq!(process.allocate_direct_memory(usize::MAX, 0), Err(12));
    assert_eq!(process.release_direct_memory(0, 0x1000), 0);
    assert_eq!(process.release_direct_memory(u64::MAX, 0), 0);
}

#[test]
fn direct_memory_is_mapped_at_its_own_address() {
    let (va, plan) = Process::map_direct_memory(0x5000, 0);
    assert_eq!(va, DIRECT_MEMORY_POOL_BASE + 0x5000);
    assert_eq!((plan.target, plan.len, plan.align), (va, 1, 0));
    assert!(plan.read && plan.write && !plan.execute);
    assert!(plan.file.is_none());
}

#[test]
fn an_address_counts_only_where_it_is_fixed() {
    let hint = Process::mmap(0x7000, 0x1000, 5, 0x2, 4, -8);
    assert_eq!(hint.target, 0);
    assert!(hint.read && !hint.write && hint.execute);
    let file = hint.file.unwrap();
    assert_eq!((file.fd, file.from), (4, 0));
    let fixed = Process::mmap(0x7000, 0x1000, 3, 0x1010, 4, 0);
    assert_eq!(fixed.target, 0x7000);
    assert!(fixed.file.is_none());
}

#[test]
fn a_mapping_answers_for_its_file() {
    assert_eq!(Process::mmap_result(None, None), (Err(12), AfterMap::Nothing));
    assert_eq!(Process::mmap_result(Some(0x1000), None), (Ok(0x1000), AfterMap::Nothing));
    assert_eq!(
        Process::mmap_result(Some(0x1000), Some(Some(10))),
        (Ok(0x1000), AfterMap::ZeroFrom(10))
    );
    assert_eq!(Process::mmap_result(Some(0x1000), Some(None)), (Err(9), AfterMap::Unmap));
    assert_eq!(Process::munmap(true), (Ok(0), true));
    assert_eq!(Process::munmap(false), (Err(22), false));
}

#[test]
fn regions_are_told_of_by_name() {
    let region = |name: &str| Region {
        start: 0x1000,
        end: 0x2000,
        protection: 3,
        name: name.to_string(),
    };
    assert!(Process::virtual_query(None).is_none());
    assert!(Process::virtual_query(Some(region("dynamic_alloc"))).unwrap().is_flexible);
    assert!(Process::virtual_query(Some(region("flexible_7"))).unwrap().is_flexible);
    let stack = Process::virtual_query(Some(region("stack"))).unwrap();
    assert!(!stack.is_flexible);
    assert_eq!((stack.start, stack.end, stack.protection), (0x1000, 0x2000, 3));
    assert_eq!((stack.memory_type, stack.name.as_str()), (0, "stack"));
}

#[test]
fn saves_are_mounted_and_unmounted() {
    let mut process = Process::new();
    assert_eq!(process.savedata_mount("A", 0, HostDir::NoProgram).unwrap_err(), 0x16);
    assert_eq!(process.savedata_mount("A", 0, HostDir::Unmakeable).unwrap_err(), 0x5);
    let there = HostDir::There { root: 4, existed: false };
    assert_eq!(
        process.savedata_mount("A", 0, there).unwrap(),
        ("/savedata0".to_string(), 1, 4096)
    );
    let again = HostDir::There { root: 4, existed: true };
    assert_eq!(
        process.savedata_mount("A", 32, again).unwrap(),
        ("/savedata0".to_string(), 0, 32)
    );
    assert_eq!(process.fs.candidates("/savedata0/slot").len(), 2);
    assert_eq!(process.savedata_umount("/savedata0"), Ok(()));
    assert_eq!(process.savedata_umount("/savedata0"), Err(0x13));
    assert_eq!(process.fs.candidates("/savedata0/slot").len(), 0);
}

#[test]
fn temporary_data_has_one_mount_point() {
    let mut process = Process::new();
    assert_eq!(process.tempdata_mount(HostDir::NoProgram).unwrap_err(), 0x16);
    assert_eq!(process.tempdata_mount(HostDir::Unmakeable).unwrap_err(), 0x5);
    let there = HostDir::There { root: 1, existed: true };
    assert_eq!(process.tempdata_mount(there).unwrap(), "/temp0");
    assert_eq!(process.fs.candidates("/temp0/cache")[0].root, 1);
}

#[test]
fn null_destructor_pointer_is_no_destructor() {
    let mut keys = TlsKeys::new();
    let k0 = keys.create_key(0);
    assert_eq!(keys.get_dtor(k0), None);
    let k1 = keys.create_key(0xDEAD_BEEF);
    assert_eq!(keys.get_dtor(k1), Some(0xDEAD_BEEF));
}

#[test]
fn keys_are_distinct_small_integers_from_zero() {
    let mut keys = TlsKeys::new();
    let a = keys.create_key(0);
    let b = keys.create_key(0);
    assert_eq!(a, 0);
    assert_eq!(b, 1);
    assert_ne!(a, b);
    assert_eq!(keys.max_key(), 2);
    for _ in 0..300 {
        keys.create_key(0);
    }
    assert!(keys.max_key() > 256);
}

#[test]
fn a_key_that_was_never_made_has_no_destructor() {
    let mut process = Process::new();
    let key = process.tls_keys.create_key(0x40);
    assert_eq!(process.tls_key_destructor(key), Some(0x40));
    assert_eq!(process.tls_key_destructor(key + 1), None);
    assert_eq!(process.tls_keys_max(), 1);
}

#[test]
fn scratch_of_reasonable_len_is_zeroed() {
    let buf = alloc_io_scratch(4096).expect("small allocation must succeed");
    assert_eq!(buf.len(), 4096);
    assert!(buf.iter().all(|&b| b == 0));
    assert_eq!(alloc_io_scratch(0).expect("zero-len must succeed").len(), 0);
}

#[test]
fn scratch_of_bogus_len_errors_instead_of_aborting() {
    assert_eq!(alloc_io_scratch(0x0FFF_FFFF_FFFF_FFFF), Err(12));
    assert_eq!(alloc_io_scratch(usize::MAX), Err(12));
}

#[test]
fn a_transfer_needs_guest_memory() {
    assert_eq!(delivered(5, true), Ok(5));
    assert_eq!(delivered(5, false), Err(14));
}

#[test]
fn buffer_attributes_fall_back() {
    let full = KernelBridge::read_videoout_attr(8, Some(7), Some(640), Some(480));
    assert_eq!((full.width, full.height, full.pixel_format), (640, 480, 7));
    let no_format = KernelBridge::read_videoout_attr(8, None, Some(640), Some(480));
    assert_eq!(no_format.pixel_format, 0x8000_0000);
    for attr in [
        KernelBridge::read_videoout_attr(0, Some(7), Some(640), Some(480)),
        KernelBridge::read_videoout_attr(8, Some(7), None, Some(480)),
        KernelBridge::read_videoout_attr(8, Some(7), Some(0), Some(480)),
        KernelBridge::read_videoout_attr(8, Some(7), Some(640), Some(0)),
    ] {
        assert_eq!((attr.width, attr.height, attr.pixel_format), (1920, 1080, 0x8000_0000));
    }
}

#[test]
fn every_buffer_of_a_list_is_registered_at_its_index() {
    assert_eq!(KernelBridge::buffer_list(0x100, 3), vec![0x100, 0x108, 0x110]);
    assert!(KernelBridge::buffer_list(0x100, -1).is_empty());
    assert_eq!(KernelBridge::buffer_list(0x100, 99).len(), 16);
    let out = KernelBridge::video_out_register_buffers(
        -1,
        &vec![Some(0xA000), None, Some(0), Some(0xB000)],
    );
    let pairs: Vec<(u64, u32)> = out.iter().map(|r| (r.addr, r.index)).collect();
    assert_eq!(pairs, vec![(0xA000, 0xFFFF_FFFF), (0xB000, 2)]);
    let last = KernelBridge::video_out_register_buffers(i32::MAX, &vec![Some(0xC000)]);
    assert_eq!((last.len(), last[0].index), (1, 0x7FFF_FFFF));
    assert_eq!(KernelBridge::buffer_list(u64::MAX - 8, 2), vec![u64::MAX - 8, u64::MAX]);
    assert_eq!(KernelBridge::video_out_open(), Ok(0));
    assert_eq!(KernelBridge::video_out_submit_flip(-2), 0xFFFF_FFFE);
}
