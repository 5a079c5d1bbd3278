use kernel::initramfs::{load, InitImages, Vfs};
use kernel::memfile::{MemFile, StaticFile};
use kernel::loader::{elf_segments, load_elf, page_plan, Segment, USER_STACK_TOP};
use kernel::mm::address::{PhysPageNum, VirtAddr, VirtPageNum};
use kernel::mm::frame::StackFrameAllocator;
use kernel::mm::memory_set::{read_user_byte, MapArea, MapPerm, MemorySet, MAP_R, MAP_U, MAP_W, MAP_X};
use kernel::mm::phys::PhysMem;
use kernel::mm::page_table::{PTEFlags, PageTable};
use kernel::arch::riscv64::trap::TrapContext;
use kernel::fs::file::FileCtx;
use kernel::fs::tmpfs::TmpFs;
use kernel::syscall::errno::{ENOENT, ENOEXEC};
use kernel::syscall::exec::{setup_stack, sys_execve, Exec, ExecEnv};
use kernel::syscall::Kernel;
use kernel::task::context::TaskContext;
use kernel::task::load_init_proc;

fn machine(frames: usize) -> (StackFrameAllocator, PhysMem) {
    let mem = PhysMem::new(0x80000, frames);
    let mut fa = StackFrameAllocator::new();
    fa.init(PhysPageNum(0x80000), PhysPageNum(0x80000 + frames));
    (fa, mem)
}

fn seg(vaddr: u64, mem_size: u64, read: bool, write: bool, execute: bool) -> Segment {
    Segment { is_load: true, vaddr, mem_size, offset: 0, file_size: 0, read, write, execute }
}

#[test]
fn page_plan_joins_permissions_of_shared_pages() {
    let segs = vec![seg(0x1000, 0x1800, true, false, false), seg(0x2800, 0x1000, false, true, false)];
    let plan = page_plan(&segs);
    assert_eq!(plan, vec![(1, MAP_U | MAP_R), (2, MAP_U | MAP_R | MAP_W), (3, MAP_U | MAP_W)]);
}

#[test]
fn page_plan_skips_other_segments_and_gaps() {
    let mut other = seg(0x8000, 0x1000, true, true, true);
    other.is_load = false;
    let segs = vec![seg(0x1000, 0x10, false, false, true), other, seg(0x5000, 0x1000, true, false, false)];
    let plan = page_plan(&segs);
    assert_eq!(plan, vec![(1, MAP_U | MAP_X), (5, MAP_U | MAP_R)]);
}

#[test]
fn area_maps_and_copies_data() {
    let (mut fa, mut mem) = machine(32);
    let mut ms = MemorySet::new_bare(&mut fa, &mut mem);
    let area = MapArea::new(VirtAddr(0x4000), VirtAddr(0x5800), MapPerm { bits: MAP_R | MAP_W | MAP_U });
    let data: Vec<u8> = (0..5000u32).map(|i| (i % 251) as u8).collect();
    assert!(ms.push(area, Some(&data), &mut fa, &mut mem));
    assert_eq!(ms.areas.len(), 1);
    assert_eq!(ms.areas[0].frames.len(), 2);
    for i in [0usize, 1, 4095, 4096, 4999] {
        assert_eq!(read_user_byte(&ms.page_table, &mem, 0x4000 + i), Some(data[i]));
    }
    // the rest of the second page is zero, the page after the area unmapped
    assert_eq!(read_user_byte(&ms.page_table, &mem, 0x4000 + 5000), Some(0));
    assert_eq!(read_user_byte(&ms.page_table, &mem, 0x6000), None);
    let e = ms.page_table.translate(&mem, VirtPageNum(4)).unwrap();
    assert_eq!(e.bits & 0xff, (MAP_R | MAP_W | MAP_U) as u64 | 1);
}

#[test]
fn unmapped_area_reads_nothing() {
    let (mut fa, mut mem) = machine(16);
    let mut ms = MemorySet::new_bare(&mut fa, &mut mem);
    let area = MapArea::new(VirtAddr(0x1000), VirtAddr(0x3000), MapPerm { bits: MAP_R | MAP_U });
    assert!(ms.push(area, None, &mut fa, &mut mem));
    assert!(read_user_byte(&ms.page_table, &mem, 0x1000).is_some());
    let mut area = ms.areas.pop().unwrap();
    assert!(area.unmap(&mut ms.page_table, &mut mem));
    assert!(area.frames.is_empty());
    assert_eq!(read_user_byte(&ms.page_table, &mem, 0x1000), None);
    assert_eq!(read_user_byte(&ms.page_table, &mem, 0x2fff), None);
}

#[test]
fn mapping_fails_without_frames() {
    let (mut fa, mut mem) = machine(2);
    let mut ms = MemorySet::new_bare(&mut fa, &mut mem);
    let area = MapArea::new(VirtAddr(0x1000), VirtAddr(0x9000), MapPerm { bits: MAP_R | MAP_U });
    assert!(!ms.push(area, None, &mut fa, &mut mem));
}

#[test]
fn identity_pages_map_to_themselves() {
    let (mut fa, mut mem) = machine(8);
    let mut ms = MemorySet::new_bare(&mut fa, &mut mem);
    assert!(ms.push_identity(0x80002000, 0x80003000, MapPerm { bits: MAP_R | MAP_W }, &mut fa, &mut mem));
    let e = ms.page_table.translate(&mem, VirtPageNum(0x80002)).unwrap();
    assert_eq!(e.ppn().0, 0x80002);
    assert!(ms.areas.is_empty());
}

fn tiny_elf() -> Vec<u8> {
    let mut f = vec![0u8; 200];
    f[0..4].copy_from_slice(&[0x7f, b'E', b'L', b'F']);
    f[4] = 2; // 64-bit
    f[5] = 1; // little-endian
    f[6] = 1;
    f[16..18].copy_from_slice(&2u16.to_le_bytes());
    f[18..20].copy_from_slice(&0xf3u16.to_le_bytes());
    f[20..24].copy_from_slice(&1u32.to_le_bytes());
    f[24..32].copy_from_slice(&0x10078u64.to_le_bytes()); // entry
    f[32..40].copy_from_slice(&64u64.to_le_bytes()); // program headers at 64
    f[52..54].copy_from_slice(&64u16.to_le_bytes());
    f[54..56].copy_from_slice(&56u16.to_le_bytes());
    f[56..58].copy_from_slice(&1u16.to_le_bytes());
    let ph = 64;
    f[ph..ph + 4].copy_from_slice(&1u32.to_le_bytes()); // LOAD
    f[ph + 4..ph + 8].copy_from_slice(&5u32.to_le_bytes()); // R|X
    f[ph + 8..ph + 16].copy_from_slice(&0u64.to_le_bytes()); // offset
    f[ph + 16..ph + 24].copy_from_slice(&0x10000u64.to_le_bytes()); // vaddr
    f[ph + 24..ph + 32].copy_from_slice(&0x10000u64.to_le_bytes());
    f[ph + 32..ph + 40].copy_from_slice(&200u64.to_le_bytes()); // file size
    f[ph + 40..ph + 48].copy_from_slice(&0x2000u64.to_le_bytes()); // memory size
    f[ph + 48..ph + 56].copy_from_slice(&0x1000u64.to_le_bytes());
    for (i, b) in f.iter_mut().enumerate().skip(120) {
        *b = i as u8;
    }
    f
}

#[test]
fn elf_headers_are_read() {
    let f = tiny_elf();
    let (h, segs) = elf_segments(&f).unwrap();
    assert!(h.is_64);
    assert_eq!(h.entry, 0x10078);
    assert_eq!((h.ph_offset, h.ph_count, h.ph_entry_size), (64, 1, 56));
    assert_eq!(segs.len(), 1);
    let s = segs[0];
    assert!(s.is_load && s.read && s.execute && !s.write);
    assert_eq!((s.vaddr, s.mem_size, s.offset, s.file_size), (0x10000, 0x2000, 0, 200));
}

#[test]
fn a_file_that_is_not_elf_is_refused() {
    let mut f = tiny_elf();
    f[1] = b'X';
    assert!(elf_segments(&f).is_none());
    assert!(elf_segments(&[0x7f, b'E']).is_none());
    let mut f = tiny_elf();
    f[56..58].copy_from_slice(&9u16.to_le_bytes()); // the table would run past the end
    assert!(elf_segments(&f).is_none());
}

#[test]
fn load_elf_maps_segments_and_stack() {
    let (mut fa, mut mem) = machine(128);
    let ms = MemorySet::new_bare(&mut fa, &mut mem);
    let f = tiny_elf();
    let l = load_elf(&f, ms, &mut fa, &mut mem).unwrap();
    assert_eq!(l.entry, 0x10078);
    assert_eq!((l.phnum, l.phent), (1, 56));
    assert_eq!(l.auxv_phdr, 0x10040);
    assert_eq!(l.program_break, 0x12000);
    assert_eq!(l.stack_top, USER_STACK_TOP);
    assert_eq!(l.memory.areas.len(), 2);
    let pt = &l.memory.page_table;
    assert_eq!(read_user_byte(pt, &mem, 0x10000), Some(0x7f));
    assert_eq!(read_user_byte(pt, &mem, 0x10000 + 150), Some(150));
    assert_eq!(read_user_byte(pt, &mem, 0x10000 + 300), Some(0));
    assert_eq!(read_user_byte(pt, &mem, 0x11fff), Some(0));
    assert_eq!(read_user_byte(pt, &mem, 0x12000), None);
    assert_eq!(read_user_byte(pt, &mem, USER_STACK_TOP - 1), Some(0));
    let e = pt.translate(&mem, VirtPageNum(0x10)).unwrap();
    assert_eq!(e.bits & 0xff, (MAP_U | MAP_R | MAP_X) as u64 | 1);
}

fn images() -> InitImages {
    InitImages {
        ld_musl: b"LD".to_vec(),
        nginx: b"NGINX".to_vec(),
        libcrypto: b"C".to_vec(),
        libssl: b"S".to_vec(),
        libpcre2: b"P".to_vec(),
        libz: b"Z".to_vec(),
    }
}

#[test]
fn boot_image_has_nginx_and_its_loader() {
    let mut v = Vfs::new();
    load(&mut v, &images());
    assert_eq!(v.resolve(b"/lib/libc.musl-riscv64.so.1"), Some(b"/lib/ld-musl-riscv64.so.1".to_vec()));
    assert_eq!(v.open(b"/lib/libc.musl-riscv64.so.1").map(|f| f.data), Some(b"LD".to_vec()));
    assert_eq!(v.open(b"/usr/sbin/nginx").map(|f| f.data), Some(b"NGINX".to_vec()));
    assert_eq!(v.size(b"/usr/lib/libz.so.1.3.2"), Some(1));
    assert_eq!(v.is_dir(b"/var/lib/nginx/tmp/uwsgi"), Some(true));
    assert_eq!(v.is_dir(b"/etc/passwd"), Some(false));
    assert!(v.path_exists(b"/proc/self"));
    assert!(!v.path_exists(b"/nowhere"));
    assert!(v.open(b"/etc").is_none());
    let conf = v.open(b"/etc/nginx/nginx.conf").unwrap().data;
    assert!(conf.starts_with(b"daemon off;\nmaster_process off;\n"));
    assert_eq!(v.entries.len(), 41);
}

#[test]
fn links_are_followed_eight_times_at_most() {
    let mut v = Vfs::new();
    v.insert_symlink(b"/a", b"/b");
    v.insert_symlink(b"/b", b"/a");
    assert_eq!(v.resolve(b"/a"), None);
    v.insert_file(b"/b", b"data");
    assert_eq!(v.resolve(b"/a"), Some(b"/b".to_vec()));
    assert_eq!(v.open(b"/a").map(|f| f.data), Some(b"data".to_vec()));
    // a second insert replaces the entry in place
    assert_eq!(v.entries.len(), 2);
}

fn user_word(pt: &kernel::mm::page_table::PageTable, mem: &PhysMem, va: usize) -> u64 {
    let mut b = [0u8; 8];
    for (i, x) in b.iter_mut().enumerate() {
        *x = read_user_byte(pt, mem, va + i).unwrap();
    }
    u64::from_le_bytes(b)
}

#[test]
fn setup_stack_lays_out_arguments() {
    let (mut fa, mut mem) = machine(128);
    let ms = MemorySet::new_bare(&mut fa, &mut mem);
    let l = load_elf(&tiny_elf(), ms, &mut fa, &mut mem).unwrap();
    let args = vec![b"ab".to_vec(), b"xyz".to_vec()];
    let sp = setup_stack(&l.memory.page_table, &mut mem, USER_STACK_TOP, &args, &Vec::new()).unwrap();
    assert_eq!(sp, 0x3FFF_FFD0);
    let pt = &l.memory.page_table;
    assert_eq!(user_word(pt, &mem, sp), 2);
    assert_eq!(user_word(pt, &mem, sp + 8), 0x3FFF_FFF0);
    assert_eq!(user_word(pt, &mem, sp + 16), 0x3FFF_FFF8);
    assert_eq!(user_word(pt, &mem, sp + 24), 0);
    let s: Vec<u8> = (0..3).map(|i| read_user_byte(pt, &mem, 0x3FFF_FFF0 + i).unwrap()).collect();
    assert_eq!(s, b"ab\0".to_vec());
    let s: Vec<u8> = (0..4).map(|i| read_user_byte(pt, &mem, 0x3FFF_FFF8 + i).unwrap()).collect();
    assert_eq!(s, b"xyz\0".to_vec());
}

#[test]
fn setup_stack_refuses_a_stack_that_does_not_fit() {
    let (mut fa, mut mem) = machine(128);
    let ms = MemorySet::new_bare(&mut fa, &mut mem);
    let l = load_elf(&tiny_elf(), ms, &mut fa, &mut mem).unwrap();
    let args = vec![vec![b'a'; 40]];
    assert_eq!(setup_stack(&l.memory.page_table, &mut mem, 32, &args, &Vec::new()), None);
}

fn kernel_with(path: &[u8], data: &[u8]) -> Kernel {
    let mut fs = TmpFs::new();
    fs.create_file(path, data, 0);
    let ctx = FileCtx { fs, pipes: Vec::new(), console: Vec::new(), now_ms: 0 };
    Kernel::boot(ctx, TrapContext::new(0x1000, 0x8000, 0), TaskContext::new_empty(), 0x1234, 0x4000, 0x3000_0000)
}

fn env() -> ExecEnv {
    ExecEnv { kernel_satp: 0x8000_0000_0008_0000, sstatus: 0x100, trap_cx_addr: 0xffff_1000, trap_return: 0x8020_0000 }
}

#[test]
fn execve_replaces_the_program() {
    let (mut fa, mut mem) = machine(128);
    let mut k = kernel_with(b"/bin/prog", &tiny_elf());
    let space = MemorySet::new_bare(&mut fa, &mut mem);
    let root = space.page_table.root_ppn.0;
    let args = vec![b"prog".to_vec()];
    match sys_execve(&mut k, b"/bin/prog", &args, &Vec::new(), space, &mut fa, &mut mem, env()) {
        Exec::Loaded(ms) => {
            assert_eq!(ms.page_table.root_ppn.0, root);
            let t = &k.manager.tasks[0];
            assert_eq!(t.token, 0x8000_0000_0000_0000 + root);
            assert_eq!(t.trap_cx.sepc, 0x10078);
            assert_eq!(t.trap_cx.x[2], 0x3FFF_FFD8);
            assert_eq!(t.trap_cx.user_satp, t.token);
            assert_eq!(t.trap_cx.kernel_satp, 0x8000_0000_0008_0000);
            assert_eq!(t.trap_cx.sstatus, 0x20);
            assert_eq!((t.task_cx.ra, t.task_cx.sp), (0x8020_0000, 0xffff_1000));
            assert_eq!(t.fd_table.len(), 3);
            assert_eq!(user_word(&ms.page_table, &mem, 0x3FFF_FFD8), 1);
        }
        Exec::Failed(e) => panic!("execve failed with {}", e),
    }
}

#[test]
fn execve_errors() {
    let (mut fa, mut mem) = machine(128);
    let mut k = kernel_with(b"/bin/text", b"not a program");
    let space = MemorySet::new_bare(&mut fa, &mut mem);
    assert!(matches!(sys_execve(&mut k, b"/bin/none", &Vec::new(), &Vec::new(), space, &mut fa, &mut mem, env()), Exec::Failed(e) if e == ENOENT));
    let space = MemorySet::new_bare(&mut fa, &mut mem);
    assert!(matches!(sys_execve(&mut k, b"/bin/text", &Vec::new(), &Vec::new(), space, &mut fa, &mut mem, env()), Exec::Failed(e) if e == ENOEXEC));
    assert_eq!(k.manager.tasks[0].token, 0x1234);
}

#[test]
fn init_process_comes_from_the_first_program_found() {
    let (mut fa, mut mem) = machine(128);
    let mut fs = TmpFs::new();
    fs.create_file(b"/bin/sh", &tiny_elf(), 0);
    fs.create_file(b"/init", b"", 0);
    let ctx = FileCtx { fs, pipes: Vec::new(), console: Vec::new(), now_ms: 0 };
    let space = MemorySet::new_bare(&mut fa, &mut mem);
    let (k, ms) = load_init_proc(ctx, space, &mut fa, &mut mem, env(), 0x3000_0000).unwrap();
    let t = &k.manager.tasks[0];
    assert_eq!(t.pid, 1);
    assert_eq!(t.trap_cx.sepc, 0x10078);
    assert_eq!(t.heap_start, 0x12000);
    let sp = t.trap_cx.x[2];
    assert_eq!(user_word(&ms.page_table, &mem, sp), 1);
    let argv0 = user_word(&ms.page_table, &mem, sp + 8) as usize;
    let s: Vec<u8> = (0..8).map(|i| read_user_byte(&ms.page_table, &mem, argv0 + i).unwrap()).collect();
    assert_eq!(s, b"/bin/sh\0".to_vec());
}

#[test]
fn no_init_program_means_no_process() {
    let (mut fa, mut mem) = machine(64);
    let ctx = FileCtx { fs: TmpFs::new(), pipes: Vec::new(), console: Vec::new(), now_ms: 0 };
    let space = MemorySet::new_bare(&mut fa, &mut mem);
    assert!(load_init_proc(ctx, space, &mut fa, &mut mem, env(), 0x3000_0000).is_none());
}

#[test]
fn static_file_reads_seeks_and_refuses_writes() {
    let mut f = StaticFile::new(b"/etc/hosts", b"hello world");
    assert_eq!(f.read(5), (5, b"hello".to_vec()));
    assert_eq!(f.read(100), (6, b" world".to_vec()));
    assert_eq!(f.read(4), (0, Vec::new()));
    assert_eq!(f.pread(3, 6), (3, b"wor".to_vec()));
    assert_eq!(f.seek(-5, 2), 6);
    assert_eq!(f.read(2), (2, b"wo".to_vec()));
    assert_eq!(f.seek(-100, 1), -22);
    assert_eq!(f.seek(0, 7), -22);
    assert_eq!(f.write(b"x"), -1);
    assert_eq!(f.size(), 11);
}

#[test]
fn mem_file_grows_with_zeros_past_its_end() {
    let mut f = MemFile::new_rw(b"/var/log/x", b"abc".to_vec());
    assert_eq!(f.seek(5, 0), 5);
    assert_eq!(f.write(b"XY"), 2);
    assert_eq!(f.data, b"abc\0\0XY".to_vec());
    assert_eq!(f.pos, 7);
    assert_eq!(f.seek(1, 0), 1);
    assert_eq!(f.write(b"Q"), 1);
    assert_eq!(f.data, b"aQc\0\0XY".to_vec());
    assert_eq!(f.read(3), (3, b"c\0\0".to_vec()));
    assert_eq!(f.pread(10, 5), (2, b"XY".to_vec()));
}

#[test]
fn elf_without_a_program_table_has_no_segments() {
    let mut f = tiny_elf();
    f[54..56].copy_from_slice(&0u16.to_le_bytes()); // entry size 0: no table is read
    let (h, segs) = elf_segments(&f).unwrap();
    assert_eq!(h.ph_entry_size, 0);
    assert!(segs.is_empty());
}

#[test]
fn elf_with_a_misaligned_program_table_is_refused() {
    let mut f = tiny_elf();
    f[32..40].copy_from_slice(&0x41u64.to_le_bytes());
    assert!(elf_segments(&f).is_none());
}

#[test]
fn overlapping_segments_keep_the_bytes_written_last() {
    let mut f = tiny_elf();
    f[56..58].copy_from_slice(&2u16.to_le_bytes());
    let ph = 120;
    f[ph..ph + 4].copy_from_slice(&1u32.to_le_bytes()); // LOAD
    f[ph + 4..ph + 8].copy_from_slice(&6u32.to_le_bytes()); // R|W
    f[ph + 8..ph + 16].copy_from_slice(&0u64.to_le_bytes()); // offset 0
    f[ph + 16..ph + 24].copy_from_slice(&0x10008u64.to_le_bytes()); // vaddr
    f[ph + 24..ph + 32].copy_from_slice(&0x10008u64.to_le_bytes());
    f[ph + 32..ph + 40].copy_from_slice(&4u64.to_le_bytes()); // file size
    f[ph + 40..ph + 48].copy_from_slice(&4u64.to_le_bytes()); // memory size
    f[ph + 48..ph + 56].copy_from_slice(&0x1000u64.to_le_bytes());
    let (mut fa, mut mem) = machine(128);
    let ms = MemorySet::new_bare(&mut fa, &mut mem);
    let l = load_elf(&f, ms, &mut fa, &mut mem).unwrap();
    let pt = &l.memory.page_table;
    // the second segment's bytes (the file's first four) replace the first one's
    assert_eq!(read_user_byte(pt, &mem, 0x10008), Some(0x7f));
    assert_eq!(read_user_byte(pt, &mem, 0x1000b), Some(b'F'));
    assert_eq!(read_user_byte(pt, &mem, 0x1000c), Some(f[12]));
    // the shared page has the union of both permissions
    let e = pt.translate(&mem, VirtPageNum(0x10)).unwrap();
    assert_eq!(e.bits & 0xff, (MAP_U | MAP_R | MAP_W | MAP_X) as u64 | 1);
}

#[test]
fn mapping_and_unmapping_a_page_leaves_the_others() {
    let (mut fa, mut mem) = machine(16);
    let mut pt = PageTable::new(&mut fa, &mut mem);
    let flags = PTEFlags { bits: (MAP_R | MAP_U) as u64 };
    pt.map(&mut fa, &mut mem, VirtPageNum(0x10), PhysPageNum(0x80009), flags);
    pt.map(&mut fa, &mut mem, VirtPageNum(0x40000), PhysPageNum(0x8000a), flags);
    assert_eq!(pt.translate(&mem, VirtPageNum(0x10)).unwrap().ppn().0, 0x80009);
    assert_eq!(pt.translate(&mem, VirtPageNum(0x40000)).unwrap().ppn().0, 0x8000a);
    assert!(pt.translate(&mem, VirtPageNum(0x11)).is_none());
    pt.unmap(&mut mem, VirtPageNum(0x10));
    assert!(pt.translate(&mem, VirtPageNum(0x10)).is_none());
    assert_eq!(pt.translate(&mem, VirtPageNum(0x40000)).unwrap().ppn().0, 0x8000a);
}

#[test]
fn areas_across_table_boundaries_map_and_unmap_whole() {
    let (mut fa, mut mem) = machine(64);
    let mut ms = MemorySet::new_bare(&mut fa, &mut mem);
    // pages 0x1fe..0x202 straddle two leaf tables
    let area = MapArea::new(VirtAddr(0x1fe000), VirtAddr(0x202000), MapPerm { bits: MAP_R | MAP_W | MAP_U });
    assert!(ms.push(area, None, &mut fa, &mut mem));
    let other = MapArea::new(VirtAddr(0x400000), VirtAddr(0x401000), MapPerm { bits: MAP_R | MAP_U });
    assert!(ms.push(other, None, &mut fa, &mut mem));
    for v in 0x1fe..0x202 {
        assert!(ms.page_table.translate(&mem, VirtPageNum(v)).is_some());
    }
    let mut first = ms.areas.remove(0);
    assert!(first.unmap(&mut ms.page_table, &mut mem));
    for v in 0x1fe..0x202 {
        assert!(ms.page_table.translate(&mem, VirtPageNum(v)).is_none());
    }
    assert!(ms.page_table.translate(&mem, VirtPageNum(0x400)).is_some());
}
