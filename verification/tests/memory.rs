use cyphera_kernel::errno;
use cyphera_kernel::process_model::Pid;
use cyphera_kernel::syscall::mempolicy::{sys_get_mempolicy, sys_mbind, sys_set_mempolicy};
use cyphera_kernel::syscall::mm::{
    align_up_page, brk_answer, count_present, mmap_answer, mmap_shared, mprotect_result, pages_between, prot_to_perms, sys_brk, sys_mmap,
    sys_mprotect, Backing, Brk, BrkStep, MapFile, MmapState, MmapStep, Perms, Vma, MAP_ANONYMOUS,
    MAP_FIXED, MAP_FIXED_NOREPLACE, MAP_SHARED, PAGE, PROT_READ, PROT_WRITE,
};
use cyphera_kernel::syscall::mm_range::{
    detach_shared_dropped, extend_in_place, mincore_pages, shm_goes, sys_madvise, sys_membarrier,
    mremap_answer, sys_mincore, sys_mlock, sys_mlockall, sys_mremap, sys_msync, sys_munmap, writeback_ranges,
    MremapStep, MADV_DONTNEED, MREMAP_MAYMOVE,
};
use cyphera_kernel::syscall::vm_copy::{process_vm_parts, process_vm_target, read_iovecs, CopyState, IoVec, Target};

const NO_FD: u64 = u64::MAX;

fn rw() -> Perms {
    Perms { read: true, write: true, execute: false }
}

fn vma(start: u64, end: u64) -> Vma {
    Vma { start, end, prot: rw(), anon: true, shared: false, backing: Backing::Anonymous }
}

fn state(vmas: Vec<Vma>) -> MmapState {
    MmapState { vmas, arena_lo: 0x10000, arena_hi: 0x100000 }
}

#[test]
fn pages_are_rounded_up() {
    assert_eq!(align_up_page(1), PAGE);
    assert_eq!(align_up_page(PAGE), PAGE);
    assert_eq!(pages_between(0, 2 * PAGE + 1), vec![0, PAGE, 2 * PAGE]);
    assert_eq!(count_present(&vec![true, false, true]), 2);
    let p = prot_to_perms(PROT_READ | PROT_WRITE);
    assert_eq!((p.read, p.write, p.execute), (true, true, false));
}

#[test]
fn an_anonymous_mapping_goes_where_there_is_room() {
    let m = state(vec![vma(0x20000, 0x21000)]);
    let map = |addr: u64, flags: u64, gap: Option<u64>| {
        sys_mmap(&m, false, addr, 100, PROT_READ, flags, NO_FD, 0, None, gap)
    };
    match map(0x30000, MAP_ANONYMOUS, Some(0x50000)) {
        MmapStep::Enter { vma, pages, replace } => {
            assert_eq!((vma.start, vma.end, pages, replace), (0x30000, 0x31000, 1, false))
        }
        _ => panic!("the place is free"),
    }
    match map(0x20000, MAP_ANONYMOUS, Some(0x50000)) {
        MmapStep::Enter { vma, .. } => assert_eq!(vma.start, 0x50000),
        _ => panic!("there is a gap"),
    }
    assert!(matches!(map(0x20000, MAP_ANONYMOUS, None), MmapStep::Reply(errno::ENOMEM)));
    match map(0x20000, MAP_ANONYMOUS | MAP_FIXED, None) {
        MmapStep::Enter { vma, replace, .. } => assert_eq!((vma.start, replace), (0x20000, true)),
        _ => panic!("a fixed place is taken"),
    }
    assert!(matches!(map(0x20000, MAP_ANONYMOUS | MAP_FIXED_NOREPLACE, None), MmapStep::Reply(errno::EEXIST)));
    assert!(matches!(map(0x20001, MAP_ANONYMOUS | MAP_FIXED, None), MmapStep::Reply(errno::EINVAL)));
    assert!(matches!(map(0x30000, MAP_ANONYMOUS | MAP_SHARED, None), MmapStep::EnterShared { .. }));
    assert_eq!(mmap_answer(&map(0x30000, MAP_ANONYMOUS, None), None), 0x30000);
    assert_eq!(mmap_answer(&map(0x20000, MAP_ANONYMOUS, None), None), errno::ENOMEM);
    let step = map(0x30000, MAP_ANONYMOUS | MAP_SHARED, None);
    let share = |segment: Option<u64>, space: bool, mapped: u64| match step {
        MmapStep::EnterShared { vma, pages, .. } => {
            mmap_answer(&step, Some(mmap_shared(vma, pages, segment, space, mapped)))
        }
        _ => panic!("the memory is shared"),
    };
    assert_eq!(share(Some(4), true, 1), 0x30000);
    assert_eq!(share(Some(4), true, 0), errno::ENOMEM);
    assert_eq!(share(Some(4), false, 1), errno::EINVAL);
    assert_eq!(share(None, true, 1), errno::ENOMEM);
    let none = sys_mmap(&m, false, 0, 0, 0, MAP_ANONYMOUS, NO_FD, 0, None, None);
    assert!(matches!(none, MmapStep::Reply(errno::EINVAL)));
}

#[test]
fn a_file_is_mapped_where_it_can_be_read() {
    let m = state(vec![]);
    let map = |file: Option<MapFile>, offset: u64| {
        sys_mmap(&m, false, 0x30000, PAGE, PROT_READ, 0, 3, offset, file, None)
    };
    assert!(matches!(map(None, 0), MmapStep::Reply(errno::EBADF)));
    assert!(matches!(map(Some(MapFile { readable: false, inode: 5 }), 0), MmapStep::Reply(errno::EBADF)));
    match map(Some(MapFile { readable: true, inode: 5 }), PAGE) {
        MmapStep::Enter { vma, .. } => {
            assert!(matches!(vma.backing, Backing::File { inode: 5, offset: PAGE }))
        }
        _ => panic!("the file can be read"),
    }
}

#[test]
fn protection_is_changed_in_whole_pages() {
    let p = sys_mprotect(false, 0x30000, 100, PROT_READ).ok().unwrap();
    assert_eq!((p.lo, p.hi, p.pages), (0x30000, 0x31000, 1));
    assert_eq!(sys_mprotect(false, 0x30001, 100, PROT_READ).err(), Some(errno::EINVAL));
    assert_eq!(mprotect_result(None, &vec![]), errno::EINVAL);
    assert_eq!(mprotect_result(Some(1), &vec![true]), 0);
    assert_eq!(mprotect_result(Some(1), &vec![true, false]), errno::ENOMEM);
    assert_eq!(mprotect_result(Some(0), &vec![false]), 0);
}

#[test]
fn the_break_moves_within_its_bounds() {
    let cur = Brk { current: 0x5000, max: 0x9000 };
    assert!(matches!(sys_brk(cur, false, 0), BrkStep::Move(0x5000)));
    assert!(matches!(sys_brk(cur, false, 0x9001), BrkStep::Stay(0x5000)));
    assert!(matches!(sys_brk(cur, true, 0x6000), BrkStep::Stay(0x5000)));
    assert!(matches!(sys_brk(cur, false, 0x4000), BrkStep::Move(0x4000)));
    assert!(matches!(sys_brk(cur, false, 0x7000), BrkStep::Grow { from: 0x5000, pages: 2, to: 0x7000 }));
    assert_eq!(brk_answer(cur, &sys_brk(cur, false, 0x9001), true, 0x9001), 0x5000);
    assert_eq!(brk_answer(cur, &sys_brk(cur, false, 0x4000), false, 0x4000), 0x4000);
    assert_eq!(brk_answer(cur, &sys_brk(cur, false, 0x7000), true, 0x7000), 0x7000);
    assert_eq!(brk_answer(cur, &sys_brk(cur, false, 0x7000), false, 0x7000), 0x5000);
}

#[test]
fn ranges_are_unmapped_and_moved() {
    let r = sys_munmap(false, 0x30000, 1).ok().unwrap();
    assert_eq!((r.lo, r.hi, r.pages), (0x30000, 0x31000, 1));
    assert_eq!(sys_munmap(false, 0x30001, 1).err(), Some(errno::EINVAL));
    assert_eq!(sys_munmap(false, 0x30000, 0).err(), Some(errno::EINVAL));
    let old = vma(0x20000, 0x22000);
    let m = state(vec![old]);
    let remap = |new: u64, flags: u64, gap: Option<u64>| {
        sys_mremap(&m, false, 0x20000, 0x2000, new, flags, Some(old), gap)
    };
    match remap(0x1000, 0, None) {
        MremapStep::Shrink { tail } => assert_eq!((tail.lo, tail.hi), (0x21000, 0x22000)),
        _ => panic!("it is made smaller"),
    }
    assert!(matches!(remap(0x3000, 0, None), MremapStep::Extend { end: 0x23000 }));
    let crowded = state(vec![old, vma(0x22000, 0x23000)]);
    let r = sys_mremap(&crowded, false, 0x20000, 0x2000, 0x3000, 0, Some(old), None);
    assert!(matches!(r, MremapStep::Reply(errno::ENOMEM)));
    match sys_mremap(&crowded, false, 0x20000, 0x2000, 0x3000, MREMAP_MAYMOVE, Some(old), Some(0x40000)) {
        MremapStep::Relocate { to, old } => {
            assert_eq!((to.start, to.end, old.lo, old.hi), (0x40000, 0x43000, 0x20000, 0x22000))
        }
        _ => panic!("it may move"),
    }
    assert_eq!(mremap_answer(&remap(0x1000, 0, None), 0x20000, false), 0x20000);
    assert_eq!(mremap_answer(&remap(0x2000, 0, None), 0x20000, false), 0x20000);
    assert_eq!(mremap_answer(&remap(0x3000, 0, None), 0x20000, false), 0x20000);
    assert_eq!(mremap_answer(&remap(0, 0, None), 0x20000, true), errno::EINVAL);
    let moves =
        sys_mremap(&crowded, false, 0x20000, 0x2000, 0x3000, MREMAP_MAYMOVE, Some(old), Some(0x40000));
    assert_eq!(mremap_answer(&moves, 0x20000, true), 0x40000);
    assert_eq!(mremap_answer(&moves, 0x20000, false), errno::EFAULT);
    let mut vmas = vec![old];
    let mut last = 0x22000;
    extend_in_place(&mut vmas, &mut last, 0x20000, 0x24000);
    assert_eq!((vmas[0].end, last), (0x24000, 0x24000));
}

#[test]
fn shared_pages_are_written_back_and_let_go() {
    let f = Vma {
        start: 0x20000,
        end: 0x22000,
        prot: rw(),
        anon: false,
        shared: true,
        backing: Backing::File { inode: 5, offset: PAGE },
    };
    let w = writeback_ranges(&vec![f, vma(0x30000, 0x31000)], 0x21000, 0x40000);
    assert_eq!(w.len(), 1);
    assert_eq!((w[0].inode, w[0].lo, w[0].hi), (5, 2 * PAGE, 3 * PAGE));
    assert_eq!(detach_shared_dropped(&vec![f], 0x20000, 0x22000).len(), 2);
    assert!(shm_goes(1, true));
    assert!(!shm_goes(2, true));
    assert!(!shm_goes(1, false));
    assert!(sys_msync(&state(vec![f]), 0x20001, PAGE).is_err());
    assert!(sys_msync(&state(vec![f]), 0x20000, PAGE).is_ok());
}

#[test]
fn advice_and_locks_speak_of_mapped_memory() {
    let m = state(vec![vma(0x20000, 0x22000)]);
    let (code, ranges) = sys_madvise(&m, false, 0x20000, PAGE, MADV_DONTNEED);
    assert_eq!((code, ranges), (0, vec![(0x20000, 0x21000)]));
    assert_eq!(sys_madvise(&m, false, 0x20001, PAGE, MADV_DONTNEED).0, errno::EINVAL);
    assert_eq!(sys_mlock(&m, 0x20000, PAGE), 0);
    assert_eq!(sys_mlock(&m, 0x50000, PAGE), errno::ENOMEM);
    assert_eq!(sys_mlockall(0), errno::EINVAL);
    assert_eq!(sys_mlockall(1), 0);
    assert_eq!(mincore_pages(&m, 0x20000, PAGE + 1), Ok(2));
    let r = sys_mincore(&m, 0x20000, 2 * PAGE, 77, Some(vec![true, false]));
    assert_eq!(r.code, 0);
    assert_eq!((r.out[0].to, r.out[0].bytes.clone()), (77, vec![1, 0]));
    assert_eq!(sys_membarrier(0), (0b1110_1011, false));
    assert_eq!(sys_membarrier(0x1000).0, errno::EINVAL);
}

#[test]
fn there_is_one_memory_node() {
    assert_eq!(sys_mbind(0, 0, 0, None), 0);
    assert_eq!(sys_mbind(77, 0, 0, None), errno::EINVAL);
    assert_eq!(sys_set_mempolicy(2, 1, 8, Some(1)), 0);
    assert_eq!(sys_set_mempolicy(2, 1, 8, None), errno::EFAULT);
    assert_eq!(sys_get_mempolicy(50, 0, 0).out[0].to, 50);
}

#[test]
fn memory_of_another_process_is_copied_piece_by_piece() {
    let local = vec![IoVec { base: 100, len: 3 }, IoVec { base: 200, len: 0 }, IoVec { base: 300, len: 5 }];
    let remote = vec![IoVec { base: 1000, len: 4 }, IoVec { base: 2000, len: 10 }];
    let mut s = CopyState::new();
    let mut seen = Vec::new();
    while let Some(c) = s.next(&local, &remote) {
        seen.push((c.local, c.remote, c.len));
        s.moved(c, &local, &remote);
    }
    assert_eq!(seen, vec![(100, 1000, 3), (300, 1003, 1), (301, 2000, 4)]);
    assert_eq!(s.copied, 8);
    let raw = vec![100, 0, 0, 0, 0, 0, 0, 0, 3, 0, 0, 0, 0, 0, 0, 0];
    let v = read_iovecs(&raw);
    assert_eq!((v[0].base, v[0].len), (100, 3));
    let ok = Some(Target { euid: 5, dumpable: true });
    assert_eq!(process_vm_target(1, 1, Pid(1), 5, Some(Pid(9)), ok), Ok(Pid(9)));
    let other = Some(Target { euid: 6, dumpable: true });
    assert_eq!(process_vm_target(1, 1, Pid(1), 5, Some(Pid(9)), other), Err(errno::EPERM));
    assert_eq!(process_vm_target(1, 1, Pid(1), 5, None, None), Err(errno::ESRCH));
    assert_eq!(process_vm_target(1025, 1, Pid(1), 5, None, None), Err(errno::EINVAL));
}

#[test]
fn a_copy_asks_only_for_what_it_reaches() {
    let local = vec![IoVec { base: 0x2000, len: 100 }];
    let remote = vec![IoVec { base: 0x1000, len: u64::MAX }];
    let mut s = CopyState::new();
    let c = s.next(&local, &remote).unwrap();
    assert_eq!((c.local, c.remote, c.len), (0x2000, 0x1000, 100));
    s.moved(c, &local, &remote);
    assert_eq!(s.next(&local, &remote), None);
    assert_eq!(s.copied, 100);
    let raw = vec![100, 0, 0, 0, 0, 0, 0, 0, 3, 0, 0, 0, 0, 0, 0, 0];
    let (l, r) = process_vm_parts(1, Some(raw.clone()), 0, None, true).ok().unwrap();
    assert_eq!((l[0].base, r.len()), (100, 0));
    assert_eq!(process_vm_parts(1, None, 0, None, false).err(), Some(errno::EFAULT));
    assert_eq!(process_vm_parts(1, Some(raw.clone()), 1, None, false).err(), Some(errno::EFAULT));
    assert_eq!(process_vm_parts(1, Some(raw), 0, None, false).err(), Some(errno::ESRCH));
}
