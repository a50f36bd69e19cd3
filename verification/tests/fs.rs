use kernel::error::Error;
use kernel::fs::block::{parse_mbr, register_device, BlockDev, BlockDriver, MBRPart, RamDisk};
use kernel::fs::ext2::{
    block_buffer, block_path, check_superblock, locate_inode, pointer, read_block, vnode_kind, widen,
    BGDescriptor, BlockPath, Ext2, Ext2Dentry, Ext2Dir, Inode, InodeLocation, SuperBlock,
};
use kernel::fs::vfs::{
    common_prefix, is_walkable, match_mountpoint, register_mount, same_bytes, vfs_open,
    walk_path_node, Filesystem, Info, Mountpoint, Path, Vnode, VnodeType,
};

fn parts(p: &Path) -> Vec<String> {
    p.component_iter().into_iter().map(|c| String::from_utf8(c).unwrap()).collect()
}

#[test]
fn path_components() {
    let p = Path::new("/home/bob/hello-world");
    assert_eq!(p.len(), 21);
    assert!(p.absolute());
    assert_eq!(parts(&p), vec!["home", "bob", "hello-world"]);
    let q = Path::new("usr/lib");
    assert!(!q.absolute());
    assert_eq!(parts(&q), vec!["usr", "lib"]);
    assert_eq!(parts(&Path::new("/")), vec![""]);
    assert_eq!(parts(&Path::new("a//b/")), vec!["a", "", "b", ""]);
    assert_eq!(parts(&Path::new("x")), vec!["x"]);
}

#[test]
fn common_components() {
    let a = Path::new("/home/bob/x").component_iter();
    let b = Path::new("/home/bob/y").component_iter();
    let c = Path::new("/home").component_iter();
    assert_eq!(common_prefix(&a, &b), 2);
    assert_eq!(common_prefix(&a, &c), 1);
    assert_eq!(common_prefix(&a, &a), 3);
    assert_eq!(common_prefix(&a, &Path::new("/usr").component_iter()), 0);
    assert!(same_bytes(&b"abc".to_vec(), &b"abc".to_vec()));
    assert!(!same_bytes(&b"abc".to_vec(), &b"abd".to_vec()));
    assert!(!same_bytes(&b"abc".to_vec(), &b"ab".to_vec()));
}

fn mounts(paths: &[&str]) -> Vec<Mountpoint<Ext2<RamDisk>>> {
    let mut mounts = Vec::new();
    for p in paths {
        assert_eq!(register_mount(&mut mounts, p, tree()), Ok(()));
    }
    mounts
}

#[test]
fn longest_mount_point_wins() {
    let m = mounts(&["/", "/home", "/home/bob", "/usr"]);
    assert_eq!(m.len(), 4);
    assert_eq!(m[2].path.buff, b"/home/bob".to_vec());
    assert_eq!(match_mountpoint(&m, &Path::new("/home/bob/file")), 2);
    assert_eq!(match_mountpoint(&m, &Path::new("/home/alice")), 1);
    assert_eq!(match_mountpoint(&m, &Path::new("/usr/lib/x")), 3);
    // nothing in common: the first mount point
    assert_eq!(match_mountpoint(&m, &Path::new("/etc/passwd")), 0);
    // a mount point that is longer than the path does not count
    assert_eq!(match_mountpoint(&m, &Path::new("/home")), 1);
    // of equals the first wins
    let twice = mounts(&["/a", "/a"]);
    assert_eq!(match_mountpoint(&twice, &Path::new("/a/b")), 0);
}

#[test]
fn paths_are_walked_below_their_mount_point() {
    let root = mounts(&["/"]);
    assert_eq!(walk_path_node(&root, &Path::new("/home/bob/hello-world")), Ok(6));
    assert_eq!(walk_path_node(&root, &Path::new("/home/bob")), Ok(5));
    assert_eq!(walk_path_node(&root, &Path::new("/")), Ok(3));
    assert_eq!(walk_path_node(&root, &Path::new("/nowhere")), Err(Error::NotFound));
    // the components of the mount point's path are not looked up
    let two = mounts(&["/", "/mnt/disk"]);
    assert_eq!(walk_path_node(&two, &Path::new("/mnt/disk/home/bob")), Ok(5));
    assert_eq!(walk_path_node(&two, &Path::new("/home")), Ok(4));
    // files cannot be opened yet
    assert_eq!(vfs_open(&root, &Path::new("/home/bob/hello-world")), Err(Error::InvalidArgument));
    assert_eq!(vfs_open(&root, &Path::new("/home/carol")), Err(Error::NotFound));
    assert!(is_walkable(&Path::new("/home/bob")));
    assert!(!is_walkable(&Path::new("home/bob")));
    assert!(!is_walkable(&Path::new("/home/../bob")));
    assert!(!is_walkable(&Path::new("")));
    assert_eq!(Filesystem::get_root_inode(&root[0].fs), Ok(3));
    assert_eq!(Filesystem::walk(&root[0].fs, &Path::new("/home").component_iter(), 0), Ok(4));
}

fn disk_with_partition() -> Vec<u8> {
    let mut d = vec![0u8; 512 * 32];
    d[446] = 0x80;
    d[446 + 4] = 0x83;
    d[446 + 8..446 + 12].copy_from_slice(&4u32.to_le_bytes());
    d[446 + 12..446 + 16].copy_from_slice(&20u32.to_le_bytes());
    d[462 + 4] = 0x82;
    d[462 + 8..462 + 12].copy_from_slice(&24u32.to_le_bytes());
    d[462 + 12..462 + 16].copy_from_slice(&8u32.to_le_bytes());
    d[510] = 0x55;
    d[511] = 0xaa;
    d
}

#[test]
fn partition_table_is_read() {
    let d = disk_with_partition();
    let parts = parse_mbr(&d[..512]).unwrap();
    assert_eq!(parts.len(), 4);
    assert_eq!(parts[0], MBRPart { attributes: 0x80, part_type: 0x83, lba_start: 4, seccount: 20 });
    assert_eq!(parts[1], MBRPart { attributes: 0, part_type: 0x82, lba_start: 24, seccount: 8 });
    assert_eq!(parts[3], MBRPart { attributes: 0, part_type: 0, lba_start: 0, seccount: 0 });
    let mut bad = d.clone();
    bad[511] = 0;
    assert_eq!(parse_mbr(&bad[..512]), None);
    assert_eq!(parse_mbr(&d[..511]), None);
}

#[test]
fn ram_disk_reads_whole_buffers_only() {
    let mut data = vec![0u8; 2048];
    for (i, b) in data.iter_mut().enumerate() {
        *b = (i / 512) as u8 + 1;
    }
    let disk = RamDisk { data };
    let mut buffer = vec![0u8; 1024];
    assert_eq!(disk.read(1, &mut buffer), Ok(1024));
    assert_eq!(buffer[0], 2);
    assert_eq!(buffer[511], 2);
    assert_eq!(buffer[512], 3);
    assert_eq!(disk.read(3, &mut buffer), Err(Error::InvalidArgument));
    assert_eq!(disk.read(5, &mut buffer), Err(Error::InvalidArgument));
    assert_eq!(buffer[0], 2);
    let mut sector = vec![0u8; 512];
    assert_eq!(disk.read(3, &mut sector), Ok(512));
    assert_eq!(sector[0], 4);
}

#[test]
fn block_device_counts_blocks_from_its_partition() {
    let mut data = vec![0u8; 512 * 16];
    for (i, b) in data.iter_mut().enumerate() {
        *b = (i / 512) as u8;
    }
    let part = MBRPart { attributes: 0, part_type: 0x83, lba_start: 4, seccount: 12 };
    let dev = BlockDev::new(part, RamDisk { data });
    assert_eq!(dev.block_start, 4);
    assert_eq!(dev.seccount, 12);
    let block = read_block(&dev, 1).unwrap();
    assert_eq!(block.len(), 1024);
    // block 1 of the partition starts at sector 6
    assert_eq!(block[0], 6);
    assert_eq!(block[1023], 7);
    assert_eq!(read_block(&dev, 6), Err(Error::InvalidArgument));
    assert_eq!(read_block(&dev, u64::MAX), Err(Error::InvalidArgument));
}

fn superblock_bytes(signature: u16, major: u32, log2: u32) -> Vec<u8> {
    let mut b = vec![0u8; 1024];
    b[0..4].copy_from_slice(&1000u32.to_le_bytes());
    b[4..8].copy_from_slice(&8000u32.to_le_bytes());
    b[20..24].copy_from_slice(&1u32.to_le_bytes());
    b[24..28].copy_from_slice(&log2.to_le_bytes());
    b[32..36].copy_from_slice(&8192u32.to_le_bytes());
    b[40..44].copy_from_slice(&16u32.to_le_bytes());
    b[56..58].copy_from_slice(&signature.to_le_bytes());
    b[76..80].copy_from_slice(&major.to_le_bytes());
    b[82..84].copy_from_slice(&0x1234u16.to_le_bytes());
    b
}

#[test]
fn superblock_fields() {
    let sb = SuperBlock::parse(&superblock_bytes(0xef53, 1, 2));
    assert_eq!(sb.total_inodes, 1000);
    assert_eq!(sb.total_blocks, 8000);
    assert_eq!(sb.superblock_index, 1);
    assert_eq!(sb.block_size_log2, 2);
    assert_eq!(sb.blocks_per_group, 8192);
    assert_eq!(sb.inodes_per_group, 16);
    assert_eq!(sb.ext2_signature, 0xef53);
    assert_eq!(sb.major_version, 1);
    assert_eq!(sb.guid_reserved, 0x1234);
    assert_eq!(check_superblock(&sb), Some(Info { lba_offset: 1, block_size: 4096 }));
    assert_eq!(check_superblock(&SuperBlock::parse(&superblock_bytes(0xef53, 1, 0))).unwrap().block_size, 1024);
    assert_eq!(check_superblock(&SuperBlock::parse(&superblock_bytes(0xef54, 1, 0))), None);
    assert_eq!(check_superblock(&SuperBlock::parse(&superblock_bytes(0xef53, 0, 0))), None);
    assert_eq!(check_superblock(&SuperBlock::parse(&superblock_bytes(0xef53, 1, 7))), None);
}

#[test]
fn descriptor_inode_and_directory_entry() {
    let mut b = vec![0u8; 1024];
    b[32..36].copy_from_slice(&3u32.to_le_bytes());
    b[36..40].copy_from_slice(&4u32.to_le_bytes());
    b[40..44].copy_from_slice(&5u32.to_le_bytes());
    b[44..46].copy_from_slice(&100u16.to_le_bytes());
    b[46..48].copy_from_slice(&7u16.to_le_bytes());
    b[48..50].copy_from_slice(&2u16.to_le_bytes());
    let d = BGDescriptor::parse(&b, 32);
    assert_eq!(
        d,
        BGDescriptor {
            block_bitmap: 3,
            inode_bitmap: 4,
            inode_table: 5,
            free_blocks: 100,
            free_inodes: 7,
            n_directories: 2
        }
    );
    let at = 256;
    b[at..at + 2].copy_from_slice(&0x41edu16.to_le_bytes());
    b[at + 2..at + 4].copy_from_slice(&1000u16.to_le_bytes());
    b[at + 4..at + 8].copy_from_slice(&4096u32.to_le_bytes());
    b[at + 24..at + 26].copy_from_slice(&100u16.to_le_bytes());
    b[at + 26..at + 28].copy_from_slice(&2u16.to_le_bytes());
    for k in 0..12u32 {
        let o = at + 40 + 4 * k as usize;
        b[o..o + 4].copy_from_slice(&(50 + k).to_le_bytes());
    }
    b[at + 88..at + 92].copy_from_slice(&77u32.to_le_bytes());
    b[at + 92..at + 96].copy_from_slice(&78u32.to_le_bytes());
    b[at + 96..at + 100].copy_from_slice(&79u32.to_le_bytes());
    b[at + 108..at + 112].copy_from_slice(&9u32.to_le_bytes());
    let inode = Inode::parse(&b, at);
    assert_eq!(inode.mode, 0x41ed);
    assert_eq!(inode.uid, 1000);
    assert_eq!(inode.size_low, 4096);
    assert_eq!(inode.guid, 100);
    assert_eq!(inode.hard_links, 2);
    assert_eq!(inode.block_ptr[0], 50);
    assert_eq!(inode.block_ptr[11], 61);
    assert_eq!(inode.sinlgly_ptr, 77);
    assert_eq!(inode.doubly_ptr, 78);
    assert_eq!(inode.triply_ptr, 79);
    assert_eq!(inode.size_upper, 9);
    assert_eq!(vnode_kind(inode.mode), Ok(VnodeType::Dir));
    assert_eq!(vnode_kind(0x81a4), Ok(VnodeType::File));
    assert_eq!(vnode_kind(0x2000), Err(Error::NotImplemented));
    let e = 512;
    b[e..e + 4].copy_from_slice(&12u32.to_le_bytes());
    b[e + 4..e + 6].copy_from_slice(&16u16.to_le_bytes());
    b[e + 6] = 5;
    b[e + 7] = 2;
    b[e + 8..e + 13].copy_from_slice(b"hello");
    let entry = Ext2Dentry::parse(&b, e);
    assert_eq!(entry, Ext2Dentry { inode: 12, size: 16, lb_name_length: 5, type_indicator: 2 });
    assert_eq!(entry.name(&b, e), Some(b"hello".to_vec()));
    assert_eq!(entry.name(&b[..e + 12], e), None);
}

#[test]
fn block_paths() {
    assert_eq!(block_path(0), BlockPath::Direct(0));
    assert_eq!(block_path(11), BlockPath::Direct(11));
    assert_eq!(block_path(12), BlockPath::Single(0));
    assert_eq!(block_path(12 + 255), BlockPath::Single(255));
    assert_eq!(block_path(12 + 256), BlockPath::Double(0, 0));
    assert_eq!(block_path(12 + 256 + 257), BlockPath::Double(1, 1));
    assert_eq!(block_path(12 + 256 + 65535), BlockPath::Double(255, 255));
    assert_eq!(block_path(12 + 256 + 65536), BlockPath::Triple(0, 0, 0));
    assert_eq!(block_path(12 + 256 + 65536 + 65536 * 2 + 256 * 3 + 4), BlockPath::Triple(2, 3, 4));
    assert_eq!(block_path(12 + 256 + 65536 + 16777216), BlockPath::Beyond);
}

#[test]
fn inode_locations() {
    assert_eq!(locate_inode(1, 16), Ok(InodeLocation { group: 0, table_block: 0, offset: 0 }));
    assert_eq!(locate_inode(3, 16), Ok(InodeLocation { group: 0, table_block: 0, offset: 256 }));
    assert_eq!(locate_inode(9, 16), Ok(InodeLocation { group: 0, table_block: 1, offset: 0 }));
    assert_eq!(locate_inode(16, 16), Ok(InodeLocation { group: 0, table_block: 1, offset: 896 }));
    assert_eq!(locate_inode(17, 16), Ok(InodeLocation { group: 1, table_block: 0, offset: 0 }));
    assert_eq!(locate_inode(0, 16), Err(Error::InvalidArgument));
    assert_eq!(locate_inode(5, 0), Err(Error::InvalidArgument));
    assert_eq!(locate_inode(0x1_0000_0000, 16), Err(Error::InvalidArgument));
}

fn volume() -> BlockDev<RamDisk> {
    // blocks of 1024 bytes: 1 superblock, 2 descriptors, 5.. inode table
    let mut data = vec![0u8; 1024 * 16];
    data[1024..2048].copy_from_slice(&superblock_bytes(0xef53, 1, 0));
    // group 0: inode table at block 5, group 1: at block 9
    data[2048 + 8..2048 + 12].copy_from_slice(&5u32.to_le_bytes());
    data[2048 + 32 + 8..2048 + 32 + 12].copy_from_slice(&9u32.to_le_bytes());
    // inode 3 in group 0
    let at = 5 * 1024 + 2 * 128;
    data[at..at + 2].copy_from_slice(&0x41edu16.to_le_bytes());
    data[at + 40..at + 44].copy_from_slice(&11u32.to_le_bytes());
    // inode 26 = second block, second inode of group 1
    let at = 10 * 1024 + 128;
    data[at..at + 2].copy_from_slice(&0x81a4u16.to_le_bytes());
    data[at + 4..at + 8].copy_from_slice(&123u32.to_le_bytes());
    BlockDev { block_start: 0, seccount: 32, driver: RamDisk { data } }
}

#[test]
fn ext2_volume_is_found_and_read() {
    let fs = Ext2::try_init(volume()).unwrap().unwrap();
    assert_eq!(fs.info, Info { lba_offset: 1, block_size: 1024 });
    assert_eq!(fs.sb.inodes_per_group, 16);
    assert_eq!(fs.get_root_inode(), Ok(3));
    assert_eq!(fs.get_bg_descriptor(0).unwrap().inode_table, 5);
    assert_eq!(fs.get_bg_descriptor(1).unwrap().inode_table, 9);
    assert_eq!(fs.get_bg_descriptor(32), Err(Error::InvalidArgument));
    let root = fs.get_inode(3).unwrap();
    assert_eq!(root.mode, 0x41ed);
    assert_eq!(root.block_ptr[0], 11);
    let file = fs.get_inode(26).unwrap();
    assert_eq!(file.mode, 0x81a4);
    assert_eq!(file.size_low, 123);
    assert_eq!(fs.get_inode(0), Err(Error::InvalidArgument));
}

#[test]
fn other_volumes_are_passed_over() {
    let mut dev = volume();
    dev.driver.data[1024 + 56] = 0;
    assert!(matches!(Ext2::try_init(dev), Ok(None)));
    let short = BlockDev { block_start: 0, seccount: 2, driver: RamDisk { data: vec![0u8; 1024] } };
    assert!(matches!(Ext2::try_init(short), Err(Error::InvalidArgument)));
}

fn put_entry(data: &mut [u8], at: usize, inode: u32, size: u16, name: &[u8]) {
    data[at..at + 4].copy_from_slice(&inode.to_le_bytes());
    data[at + 4..at + 6].copy_from_slice(&size.to_le_bytes());
    data[at + 6] = name.len() as u8;
    data[at + 7] = 2;
    data[at + 8..at + 8 + name.len()].copy_from_slice(name);
}

/// A volume with the directories `/`, `/home` and `/home/bob` and the file
/// `/home/bob/hello-world`.
fn tree() -> Ext2<RamDisk> {
    let mut dev = volume();
    let data = &mut dev.driver.data;
    data.resize(1024 * 64, 0);
    let inode = |n: usize| 5 * 1024 + (n - 1) * 128;
    // root: inode 3, entries in block 11 and, through the indirect block 20, in block 21
    let root = inode(3);
    data[root + 40..root + 44].copy_from_slice(&11u32.to_le_bytes());
    data[root + 88..root + 92].copy_from_slice(&20u32.to_le_bytes());
    for k in 1..12usize {
        let o = root + 40 + 4 * k;
        data[o..o + 4].copy_from_slice(&(30 + k as u32).to_le_bytes());
    }
    for k in 1..12usize {
        // blocks 31 to 41: one entry each that fills the block
        put_entry(data, (30 + k) * 1024, 100 + k as u32, 1024, b"filler");
    }
    put_entry(data, 11 * 1024, 3, 12, b".");
    put_entry(data, 11 * 1024 + 12, 3, 12, b"..");
    put_entry(data, 11 * 1024 + 24, 4, 1000, b"home");
    data[20 * 1024..20 * 1024 + 4].copy_from_slice(&21u32.to_le_bytes());
    put_entry(data, 21 * 1024, 7, 1024, b"lost+found");
    // /home: inode 4
    let home = inode(4);
    data[home..home + 2].copy_from_slice(&0x41edu16.to_le_bytes());
    data[home + 40..home + 44].copy_from_slice(&12u32.to_le_bytes());
    put_entry(data, 12 * 1024, 5, 1024, b"bob");
    // /home/bob: inode 5
    let bob = inode(5);
    data[bob..bob + 2].copy_from_slice(&0x41edu16.to_le_bytes());
    data[bob + 40..bob + 44].copy_from_slice(&13u32.to_le_bytes());
    put_entry(data, 13 * 1024, 6, 24, b"hello-world");
    put_entry(data, 13 * 1024 + 24, 8, 1000, b"short");
    // the file: inode 6
    let file = inode(6);
    data[file..file + 2].copy_from_slice(&0x81a4u16.to_le_bytes());
    data[file + 40..file + 44].copy_from_slice(&14u32.to_le_bytes());
    // lost+found: inode 7, a directory without blocks
    let lost = inode(7);
    data[lost..lost + 2].copy_from_slice(&0x41edu16.to_le_bytes());
    // inode 8: a directory with an entry that is too short
    let bad = inode(8);
    data[bad..bad + 2].copy_from_slice(&0x41edu16.to_le_bytes());
    data[bad + 40..bad + 44].copy_from_slice(&15u32.to_le_bytes());
    put_entry(data, 15 * 1024, 9, 4, b"x");
    Ext2::try_init(dev).unwrap().unwrap()
}

#[test]
fn blocks_of_a_file_are_found_through_its_pointers() {
    let fs = tree();
    let root = fs.get_inode(3).unwrap();
    assert_eq!(fs.get_lba(&root, 0), Ok(Some(11)));
    assert_eq!(fs.get_lba(&root, 11), Ok(Some(41)));
    // through the singly indirect block
    assert_eq!(fs.get_lba(&root, 12), Ok(Some(21)));
    assert_eq!(fs.get_lba(&root, 13), Ok(None));
    // no doubly indirect block
    assert_eq!(fs.get_lba(&root, 12 + 256), Ok(None));
    assert_eq!(fs.get_lba(&root, usize::MAX), Ok(None));
    let file = fs.get_inode(6).unwrap();
    assert_eq!(fs.get_lba(&file, 0), Ok(Some(14)));
    assert_eq!(fs.get_lba(&file, 1), Ok(None));
    assert_eq!(pointer(&fs.block_dev, 20, 0), Ok(Some(21)));
    assert_eq!(pointer(&fs.block_dev, 20, 1), Ok(None));
    assert_eq!(pointer(&fs.block_dev, 0, 1), Ok(None));
    assert_eq!(pointer(&fs.block_dev, 5000, 1), Err(Error::InvalidArgument));
    assert_eq!(widen(Ok(Some(7))), Ok(Some(7)));
    assert_eq!(widen(Err(Error::Fault)), Err(Error::Fault));
}

#[test]
fn directories_are_read_entry_by_entry() {
    let fs = tree();
    let root = fs.get_inode(3).unwrap();
    let mut reader = Ext2Dir::open();
    let mut names = Vec::new();
    while let Some(entry) = reader.readdir(&fs, &root).unwrap() {
        names.push((String::from_utf8(entry.name).unwrap(), entry.inode, entry.size));
    }
    assert_eq!(names.len(), 3 + 11 + 1);
    assert_eq!(names[0], (".".to_string(), 3, 12));
    assert_eq!(names[1], ("..".to_string(), 3, 12));
    assert_eq!(names[2], ("home".to_string(), 4, 1000));
    assert_eq!(names[3], ("filler".to_string(), 101, 1024));
    assert_eq!(names[14], ("lost+found".to_string(), 7, 1024));
    assert_eq!((reader.block_index, reader.offset), (13, 0));
    // behind the last entry the reader stays
    assert!(reader.readdir(&fs, &root).unwrap().is_none());
    assert_eq!((reader.block_index, reader.offset), (13, 0));
    // an entry that is shorter than its head is refused
    let bad = fs.get_inode(8).unwrap();
    let mut reader = Ext2Dir::open();
    assert!(matches!(reader.readdir(&fs, &bad), Err(Error::InvalidArgument)));
    assert_eq!((reader.block_index, reader.offset), (0, 0));
}

#[test]
fn names_are_looked_up_and_paths_walked() {
    let fs = tree();
    let root = fs.get_inode(3).unwrap();
    assert_eq!(fs.lookup(&root, &b"home".to_vec()), Ok(Some(4)));
    assert_eq!(fs.lookup(&root, &b"lost+found".to_vec()), Ok(Some(7)));
    assert_eq!(fs.lookup(&root, &b"hom".to_vec()), Ok(None));
    let lost = fs.get_inode(7).unwrap();
    assert_eq!(fs.lookup(&lost, &b"x".to_vec()), Ok(None));
    let walk = |p: &str| fs.walk(&Path::new(p).component_iter(), 0);
    assert_eq!(walk("/home/bob/hello-world"), Ok(6));
    assert_eq!(walk("/home//bob/"), Ok(5));
    assert_eq!(walk("/"), Ok(3));
    assert_eq!(walk("/home/alice"), Err(Error::NotFound));
    // a file is no directory
    assert_eq!(walk("/home/bob/hello-world/x"), Err(Error::NotFound));
    // the directory behind "short" holds an entry that is refused
    assert_eq!(walk("/home/bob/short/x"), Err(Error::InvalidArgument));
    // the walk can start further down the path
    assert_eq!(fs.walk(&Path::new("/mnt/home/bob").component_iter(), 1), Ok(5));
    assert_eq!(fs.walk(&Path::new("/home").component_iter(), 5), Ok(3));
}

#[test]
fn block_devices_are_registered_in_order() {
    let mut devices = Vec::new();
    register_device(&mut devices, RamDisk { data: vec![1] });
    register_device(&mut devices, RamDisk { data: vec![2, 3] });
    assert_eq!(devices.len(), 2);
    assert_eq!(devices[1].data, vec![2, 3]);
}

#[test]
fn a_block_buffer_holds_one_block_of_zeros() {
    let b = block_buffer();
    assert_eq!(b.len(), 1024);
    assert!(b.iter().all(|x| *x == 0));
}

#[test]
fn inodes_are_read_as_virtual_inodes() {
    let mut dev = volume();
    // owner and group of the root directory
    let at = 5 * 1024 + 2 * 128;
    dev.driver.data[at + 2..at + 4].copy_from_slice(&1000u16.to_le_bytes());
    dev.driver.data[at + 24..at + 26].copy_from_slice(&100u16.to_le_bytes());
    // inode 4 is a socket
    let other = 5 * 1024 + 3 * 128;
    dev.driver.data[other..other + 2].copy_from_slice(&0x1000u16.to_le_bytes());
    let fs = Ext2::try_init(dev).unwrap().unwrap();
    assert_eq!(
        fs.read_inode(3),
        Ok(Vnode { inode: 3, uid: 1000, gid: 100, mode: 0x41ed, kind: VnodeType::Dir })
    );
    assert_eq!(
        fs.read_inode(26),
        Ok(Vnode { inode: 26, uid: 0, gid: 0, mode: 0x81a4, kind: VnodeType::File })
    );
    assert_eq!(fs.read_inode(4), Err(Error::NotImplemented));
    assert_eq!(fs.read_inode(0), Err(Error::InvalidArgument));
}
