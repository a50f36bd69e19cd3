//! The ext2 file system: what lies where on the volume.
//!
//! A volume is read in blocks of `BLOCK` bytes. Block 1 holds the
//! superblock, block 2 the descriptors of the block groups; the inodes lie
//! in the inode tables that the descriptors point to. All numbers are
//! little endian.

use vstd::prelude::*;
use crate::arch::common::multiboot::{le_u16, le_u32, read_u16, read_u32};
use crate::error::{Error, Result};
use crate::fs::block::{sector_of, BlockDev, BlockDriver, Lba, SECTOR_SIZE};
use crate::fs::vfs::{same_bytes, Dirent, Info, Inonum, Vnode, VnodeType};

verus! {

/// Size in bytes of the blocks in which a volume is read.
pub const BLOCK: usize = 1024;

/// What the superblock of an ext2 volume holds at offset 56.
pub const EXT2_SIGNATURE: u16 = 0xef53;

/// Size of an inode on the volume.
pub const INODE_SIZE: usize = 128;

/// Size of a block group descriptor on the volume.
pub const BGD_SIZE: usize = 32;

/// Number of an inode's block pointers that point to data.
pub const DIRECT: usize = 12;

/// Number of block pointers in a block.
pub const NL0: usize = 256;

/// Number of blocks that a doubly indirect block reaches.
pub const NL1: usize = 65536;

/// Number of blocks that a triply indirect block reaches.
pub const NL2: usize = 16777216;

/// Mode bit of a directory.
pub const MODE_DIR: u16 = 0x4000;

/// Mode bit of a regular file.
pub const MODE_FILE: u16 = 0x8000;

/// Number of the root directory's inode.
pub const ROOT_INODE: Inonum = 3;

/// The superblock.
#[derive(Clone, Copy, Debug, PartialEq, Eq, Structural)]
pub struct SuperBlock {
    pub total_inodes: u32,
    pub total_blocks: u32,
    pub superuser_blocks: u32,
    pub free_blocks: u32,
    pub free_inodes: u32,
    pub superblock_index: u32,
    pub block_size_log2: u32,
    pub frag_size_log2: u32,
    pub blocks_per_group: u32,
    pub frag_per_group: u32,
    pub inodes_per_group: u32,
    pub last_mount: u32,
    pub last_written: u32,
    pub fsck_count: u16,
    pub fsck_limit: u16,
    pub ext2_signature: u16,
    pub state: u16,
    pub error: u16,
    pub minor_version: u16,
    pub fsck_last_time: u32,
    pub fsck_interval: u32,
    pub osid: u32,
    pub major_version: u32,
    pub uid_reserved: u16,
    pub guid_reserved: u16,
}

/// The superblock that the bytes of `s` from `at` on hold.
pub open spec fn superblock_of(s: Seq<u8>, at: int) -> SuperBlock {
    SuperBlock {
        total_inodes: le_u32(s, at) as u32,
        total_blocks: le_u32(s, at + 4) as u32,
        superuser_blocks: le_u32(s, at + 8) as u32,
        free_blocks: le_u32(s, at + 12) as u32,
        free_inodes: le_u32(s, at + 16) as u32,
        superblock_index: le_u32(s, at + 20) as u32,
        block_size_log2: le_u32(s, at + 24) as u32,
        frag_size_log2: le_u32(s, at + 28) as u32,
        blocks_per_group: le_u32(s, at + 32) as u32,
        frag_per_group: le_u32(s, at + 36) as u32,
        inodes_per_group: le_u32(s, at + 40) as u32,
        last_mount: le_u32(s, at + 44) as u32,
        last_written: le_u32(s, at + 48) as u32,
        fsck_count: le_u16(s, at + 52) as u16,
        fsck_limit: le_u16(s, at + 54) as u16,
        ext2_signature: le_u16(s, at + 56) as u16,
        state: le_u16(s, at + 58) as u16,
        error: le_u16(s, at + 60) as u16,
        minor_version: le_u16(s, at + 62) as u16,
        fsck_last_time: le_u32(s, at + 64) as u32,
        fsck_interval: le_u32(s, at + 68) as u32,
        osid: le_u32(s, at + 72) as u32,
        major_version: le_u32(s, at + 76) as u32,
        uid_reserved: le_u16(s, at + 80) as u16,
        guid_reserved: le_u16(s, at + 82) as u16,
    }
}

impl SuperBlock {
    /// Reads the superblock from the start of `b`.
    pub fn parse(b: &[u8]) -> (sb: SuperBlock)
        requires
            b@.len() >= 84,
        ensures
            sb == superblock_of(b@, 0),
    {
        SuperBlock {
            total_inodes: read_u32(b, 0),
            total_blocks: read_u32(b, 4),
            superuser_blocks: read_u32(b, 8),
            free_blocks: read_u32(b, 12),
            free_inodes: read_u32(b, 16),
            superblock_index: read_u32(b, 20),
            block_size_log2: read_u32(b, 24),
            frag_size_log2: read_u32(b, 28),
            blocks_per_group: read_u32(b, 32),
            frag_per_group: read_u32(b, 36),
            inodes_per_group: read_u32(b, 40),
            last_mount: read_u32(b, 44),
            last_written: read_u32(b, 48),
            fsck_count: read_u16(b, 52),
            fsck_limit: read_u16(b, 54),
            ext2_signature: read_u16(b, 56),
            state: read_u16(b, 58),
            error: read_u16(b, 60),
            minor_version: read_u16(b, 62),
            fsck_last_time: read_u32(b, 64),
            fsck_interval: read_u32(b, 68),
            osid: read_u32(b, 72),
            major_version: read_u32(b, 76),
            uid_reserved: read_u16(b, 80),
            guid_reserved: read_u16(b, 82),
        }
    }
}

/// The descriptor of a block group.
#[derive(Clone, Copy, Debug, PartialEq, Eq, Structural)]
pub struct BGDescriptor {
    pub block_bitmap: u32,
    pub inode_bitmap: u32,
    /// First block of the group's inode table.
    pub inode_table: u32,
    pub free_blocks: u16,
    pub free_inodes: u16,
    pub n_directories: u16,
}

/// The descriptor that the bytes of `s` from `at` on hold.
pub open spec fn descriptor_of(s: Seq<u8>, at: int) -> BGDescriptor {
    BGDescriptor {
        block_bitmap: le_u32(s, at) as u32,
        inode_bitmap: le_u32(s, at + 4) as u32,
        inode_table: le_u32(s, at + 8) as u32,
        free_blocks: le_u16(s, at + 12) as u16,
        free_inodes: le_u16(s, at + 14) as u16,
        n_directories: le_u16(s, at + 16) as u16,
    }
}

impl BGDescriptor {
    /// Reads the descriptor that lies at `at` in `b`.
    pub fn parse(b: &[u8], at: usize) -> (d: BGDescriptor)
        requires
            at + BGD_SIZE <= b@.len(),
        ensures
            d == descriptor_of(b@, at as int),
    {
        let total = b.len();
        BGDescriptor {
            block_bitmap: read_u32(b, at),
            inode_bitmap: read_u32(b, at + 4),
            inode_table: read_u32(b, at + 8),
            free_blocks: read_u16(b, at + 12),
            free_inodes: read_u16(b, at + 14),
            n_directories: read_u16(b, at + 16),
        }
    }
}

/// An inode, without the fields that the kernel does not use.
#[derive(Clone, Copy, Debug, PartialEq, Eq)]
pub struct Inode {
    pub mode: u16,
    pub uid: u16,
    /// Low 32 bits of the size.
    pub size_low: u32,
    pub access: u32,
    pub creation: u32,
    pub modification: u32,
    pub delete: u32,
    pub guid: u16,
    pub hard_links: u16,
    pub disk_sec: u32,
    pub flags: u32,
    pub osid: u32,
    pub block_ptr: [u32; 12],
    pub sinlgly_ptr: u32,
    pub doubly_ptr: u32,
    pub triply_ptr: u32,
    pub gen_number: u32,
    pub ext_attr: u32,
    pub size_upper: u32,
    pub frag: u32,
}

/// What an inode holds.
pub struct InodeModel {
    pub mode: u16,
    pub uid: u16,
    pub size_low: u32,
    pub access: u32,
    pub creation: u32,
    pub modification: u32,
    pub delete: u32,
    pub guid: u16,
    pub hard_links: u16,
    pub disk_sec: u32,
    pub flags: u32,
    pub osid: u32,
    pub block_ptr: Seq<u32>,
    pub sinlgly_ptr: u32,
    pub doubly_ptr: u32,
    pub triply_ptr: u32,
    pub gen_number: u32,
    pub ext_attr: u32,
    pub size_upper: u32,
    pub frag: u32,
}

/// The inode that the bytes of `s` from `at` on hold.
pub open spec fn inode_of(s: Seq<u8>, at: int) -> InodeModel {
    InodeModel {
        mode: le_u16(s, at) as u16,
        uid: le_u16(s, at + 2) as u16,
        size_low: le_u32(s, at + 4) as u32,
        access: le_u32(s, at + 8) as u32,
        creation: le_u32(s, at + 12) as u32,
        modification: le_u32(s, at + 16) as u32,
        delete: le_u32(s, at + 20) as u32,
        guid: le_u16(s, at + 24) as u16,
        hard_links: le_u16(s, at + 26) as u16,
        disk_sec: le_u32(s, at + 28) as u32,
        flags: le_u32(s, at + 32) as u32,
        osid: le_u32(s, at + 36) as u32,
        block_ptr: Seq::new(DIRECT as nat, |k: int| le_u32(s, at + 40 + 4 * k) as u32),
        sinlgly_ptr: le_u32(s, at + 88) as u32,
        doubly_ptr: le_u32(s, at + 92) as u32,
        triply_ptr: le_u32(s, at + 96) as u32,
        gen_number: le_u32(s, at + 100) as u32,
        ext_attr: le_u32(s, at + 104) as u32,
        size_upper: le_u32(s, at + 108) as u32,
        frag: le_u32(s, at + 112) as u32,
    }
}

impl View for Inode {
    type V = InodeModel;

    open spec fn view(&self) -> InodeModel {
        InodeModel {
            mode: self.mode,
            uid: self.uid,
            size_low: self.size_low,
            access: self.access,
            creation: self.creation,
            modification: self.modification,
            delete: self.delete,
            guid: self.guid,
            hard_links: self.hard_links,
            disk_sec: self.disk_sec,
            flags: self.flags,
            osid: self.osid,
            block_ptr: self.block_ptr@,
            sinlgly_ptr: self.sinlgly_ptr,
            doubly_ptr: self.doubly_ptr,
            triply_ptr: self.triply_ptr,
            gen_number: self.gen_number,
            ext_attr: self.ext_attr,
            size_upper: self.size_upper,
            frag: self.frag,
        }
    }
}

impl Inode {
    /// Reads the inode that lies at `at` in `b`.
    pub fn parse(b: &[u8], at: usize) -> (inode: Inode)
        requires
            at + INODE_SIZE <= b@.len(),
        ensures
            inode@ == inode_of(b@, at as int),
    {
        let total = b.len();
        let mut block_ptr: [u32; 12] = [0u32; 12];
        let mut k: usize = 0;
        while k < DIRECT
            invariant
                k <= DIRECT,
                b@.len() == total,
                at + INODE_SIZE <= b@.len(),
                forall|j: int| 0 <= j < k ==> block_ptr@[j] == le_u32(b@, at + 40 + 4 * j),
            decreases DIRECT - k,
        {
            block_ptr[k] = read_u32(b, at + 40 + 4 * k);
            k = k + 1;
        }
        let inode = Inode {
            mode: read_u16(b, at),
            uid: read_u16(b, at + 2),
            size_low: read_u32(b, at + 4),
            access: read_u32(b, at + 8),
            creation: read_u32(b, at + 12),
            modification: read_u32(b, at + 16),
            delete: read_u32(b, at + 20),
            guid: read_u16(b, at + 24),
            hard_links: read_u16(b, at + 26),
            disk_sec: read_u32(b, at + 28),
            flags: read_u32(b, at + 32),
            osid: read_u32(b, at + 36),
            block_ptr,
            sinlgly_ptr: read_u32(b, at + 88),
            doubly_ptr: read_u32(b, at + 92),
            triply_ptr: read_u32(b, at + 96),
            gen_number: read_u32(b, at + 100),
            ext_attr: read_u32(b, at + 104),
            size_upper: read_u32(b, at + 108),
            frag: read_u32(b, at + 112),
        };
        assert(inode@.block_ptr =~= inode_of(b@, at as int).block_ptr);
        inode
    }
}

/// What kind of file an inode with mode `mode` is, if the kernel knows the
/// kind.
pub open spec fn kind_of(mode: u16) -> Option<VnodeType> {
    if (mode / 0x4000) % 2 == 1 {
        Some(VnodeType::Dir)
    } else if mode / 0x8000 == 1 {
        Some(VnodeType::File)
    } else {
        None
    }
}

/// The virtual inode of the inode with number `inum` that holds `m`, if it
/// is of a kind that the kernel has a use for.
pub open spec fn vnode_of(inum: Inonum, m: InodeModel) -> Result<Vnode> {
    match kind_of(m.mode) {
        Some(kind) => Ok(Vnode { inode: inum, uid: m.uid, gid: m.guid, mode: m.mode, kind }),
        None => Err(Error::NotImplemented),
    }
}

/// What kind of file an inode with mode `mode` is: a directory, a regular
/// file, or of a kind that the kernel has no use for.
pub fn vnode_kind(mode: u16) -> (r: Result<VnodeType>)
    ensures
        match kind_of(mode) {
            Some(k) => r == Ok::<VnodeType, Error>(k),
            None => r == Err::<VnodeType, Error>(Error::NotImplemented),
        },
{
    if (mode / 0x4000) % 2 == 1 {
        Ok(VnodeType::Dir)
    } else if mode / 0x8000 == 1 {
        Ok(VnodeType::File)
    } else {
        Err(Error::NotImplemented)
    }
}

/// The head of a directory entry; the name follows it.
#[derive(Clone, Copy, Debug, PartialEq, Eq, Structural)]
pub struct Ext2Dentry {
    pub inode: u32,
    /// Size of the entry, name and padding included.
    pub size: u16,
    pub lb_name_length: u8,
    pub type_indicator: u8,
}

/// Size of the head of a directory entry.
pub const DENTRY_HEAD: usize = 8;

/// The head of the directory entry that lies at `at` in `s`.
pub open spec fn dentry_of(s: Seq<u8>, at: int) -> Ext2Dentry {
    Ext2Dentry {
        inode: le_u32(s, at) as u32,
        size: le_u16(s, at + 4) as u16,
        lb_name_length: s[at + 6],
        type_indicator: s[at + 7],
    }
}

impl Ext2Dentry {
    /// Reads the head of the directory entry that lies at `at` in `b`.
    pub fn parse(b: &[u8], at: usize) -> (d: Ext2Dentry)
        requires
            at + DENTRY_HEAD <= b@.len(),
        ensures
            d == dentry_of(b@, at as int),
    {
        let total = b.len();
        Ext2Dentry {
            inode: read_u32(b, at),
            size: read_u16(b, at + 4),
            lb_name_length: b[at + 6],
            type_indicator: b[at + 7],
        }
    }

    /// The name of the entry that lies at `at` in `b`, if all of it lies in
    /// `b`.
    pub fn name(&self, b: &[u8], at: usize) -> (r: Option<Vec<u8>>)
        requires
            at + DENTRY_HEAD <= b@.len(),
        ensures
            at + DENTRY_HEAD + self.lb_name_length > b@.len() ==> r is None,
            at + DENTRY_HEAD + self.lb_name_length <= b@.len() ==> r is Some && r->Some_0@
                == b@.subrange(at + DENTRY_HEAD, at + DENTRY_HEAD + self.lb_name_length),
    {
        let n = self.lb_name_length as usize;
        let total = b.len();
        if n > total - (at + DENTRY_HEAD) {
            return None;
        }
        let start = at + DENTRY_HEAD;
        let mut name: Vec<u8> = Vec::new();
        let mut i: usize = 0;
        while i < n
            invariant
                i <= n,
                b@.len() == total,
                start + n <= b@.len(),
                name@ == b@.subrange(start as int, start + i),
            decreases n - i,
        {
            name.push(b[start + i]);
            assert(name@ =~= b@.subrange(start as int, start + i + 1));
            i = i + 1;
        }
        Some(name)
    }
}

/// Through which block pointers of an inode a block of its file is found.
#[derive(Clone, Copy, Debug, PartialEq, Eq, Structural)]
pub enum BlockPath {
    /// The inode's own pointer with this index.
    Direct(usize),
    /// The pointer with this index in the singly indirect block.
    Single(usize),
    /// Through the doubly indirect block: the index there, then the index
    /// in the block found.
    Double(usize, usize),
    /// Through the triply indirect block: three indices.
    Triple(usize, usize, usize),
    /// No pointer reaches so far.
    Beyond,
}

/// The path to block `index` of a file.
pub open spec fn path_of(index: int) -> BlockPath {
    if index < DIRECT {
        BlockPath::Direct(index as usize)
    } else if index - DIRECT < NL0 {
        BlockPath::Single((index - DIRECT) as usize)
    } else if index - DIRECT - NL0 < NL1 {
        let i = index - DIRECT - NL0;
        BlockPath::Double((i / (NL0 as int)) as usize, (i % (NL0 as int)) as usize)
    } else if index - DIRECT - NL0 - NL1 < NL2 {
        let i = index - DIRECT - NL0 - NL1;
        BlockPath::Triple(
            (i / (NL1 as int)) as usize,
            ((i % (NL1 as int)) / (NL0 as int)) as usize,
            (i % (NL0 as int)) as usize,
        )
    } else {
        BlockPath::Beyond
    }
}

/// The path to block `block_index` of a file.
pub fn block_path(block_index: usize) -> (p: BlockPath)
    ensures
        p == path_of(block_index as int),
{
    if block_index < DIRECT {
        return BlockPath::Direct(block_index);
    }
    let index = block_index - DIRECT;
    if index < NL0 {
        return BlockPath::Single(index);
    }
    let index = index - NL0;
    if index < NL1 {
        return BlockPath::Double(index / NL0, index % NL0);
    }
    let index = index - NL1;
    if index < NL2 {
        return BlockPath::Triple(index / NL1, (index % NL1) / NL0, index % NL0);
    }
    BlockPath::Beyond
}

/// Where an inode lies on the volume.
#[derive(Clone, Copy, Debug, PartialEq, Eq, Structural)]
pub struct InodeLocation {
    /// The block group of the inode.
    pub group: usize,
    /// The block of the group's inode table, counted from its first.
    pub table_block: usize,
    /// Offset of the inode in that block.
    pub offset: usize,
}

/// Where inode `inode_num`, counted from 1, lies on a volume with
/// `inodes_per_group` inodes in each group.
pub open spec fn location_of(inode_num: int, inodes_per_group: int) -> InodeLocation {
    let index = (inode_num - 1) % inodes_per_group;
    InodeLocation {
        group: ((inode_num - 1) / inodes_per_group) as usize,
        table_block: (index * INODE_SIZE / (BLOCK as int)) as usize,
        offset: (index * INODE_SIZE % (BLOCK as int)) as usize,
    }
}

/// Where inode `inode_num` lies on a volume with `inodes_per_group` inodes
/// in each group. There is no inode 0, and a volume without inodes in its
/// groups holds none.
pub fn locate_inode(inode_num: Inonum, inodes_per_group: u32) -> (r: Result<InodeLocation>)
    ensures
        (inode_num == 0 || inode_num > u32::MAX || inodes_per_group == 0) ==> r == Err::<
            InodeLocation,
            Error,
        >(Error::InvalidArgument),
        !(inode_num == 0 || inode_num > u32::MAX || inodes_per_group == 0) ==> r == Ok::<
            InodeLocation,
            Error,
        >(location_of(inode_num as int, inodes_per_group as int)),
{
    if inode_num == 0 || inode_num > 0xffff_ffff || inodes_per_group == 0 {
        return Err(Error::InvalidArgument);
    }
    let n = inode_num - 1;
    let per_group = inodes_per_group as u64;
    let index = n % per_group;
    Ok(
        InodeLocation {
            group: (n / per_group) as usize,
            table_block: (index * 128 / 1024) as usize,
            offset: (index * 128 % 1024) as usize,
        },
    )
}

/// What the superblock `sb` says of its volume, if it is one that the
/// kernel can use: an ext2 volume of version 1 at least, with blocks of no
/// more than 64 KiB.
pub open spec fn volume_of(sb: SuperBlock) -> Option<Info> {
    if sb.ext2_signature != EXT2_SIGNATURE || sb.major_version < 1 || sb.block_size_log2 > 6 {
        None
    } else {
        Some(
            Info {
                lba_offset: sb.superblock_index as usize,
                block_size: (BLOCK * pow2(sb.block_size_log2 as int)) as usize,
            },
        )
    }
}

/// Two to the power of `e`, for the exponents that a volume's block size
/// can have.
pub open spec fn pow2(e: int) -> int {
    if e <= 0 {
        1
    } else if e == 1 {
        2
    } else if e == 2 {
        4
    } else if e == 3 {
        8
    } else if e == 4 {
        16
    } else if e == 5 {
        32
    } else {
        64
    }
}

/// What the superblock `sb` says of its volume, if it is one that the
/// kernel can use.
pub fn check_superblock(sb: &SuperBlock) -> (r: Option<Info>)
    ensures
        r == volume_of(*sb),
{
    if sb.ext2_signature != EXT2_SIGNATURE || sb.major_version < 1 || sb.block_size_log2 > 6 {
        return None;
    }
    let e = sb.block_size_log2;
    let factor: usize = if e == 0 {
        1
    } else if e == 1 {
        2
    } else if e == 2 {
        4
    } else if e == 3 {
        8
    } else if e == 4 {
        16
    } else if e == 5 {
        32
    } else {
        64
    };
    Some(Info { lba_offset: sb.superblock_index as usize, block_size: BLOCK * factor })
}

/// A buffer of one block, filled with zeros.
pub fn block_buffer() -> (b: Vec<u8>)
    ensures
        b@ == Seq::new(BLOCK as nat, |i: int| 0u8),
{
    let mut b: Vec<u8> = Vec::new();
    let mut i: usize = 0;
    while i < BLOCK
        invariant
            i <= BLOCK,
            b@.len() == i,
            forall|k: int| 0 <= k < i ==> b@[k] == 0,
        decreases BLOCK - i,
    {
        b.push(0);
        i = i + 1;
    }
    assert(b@ =~= Seq::new(BLOCK as nat, |i: int| 0u8));
    b
}

/// An ext2 volume.
pub struct Ext2<D: BlockDriver> {
    pub info: Info,
    pub sb: SuperBlock,
    pub block_dev: BlockDev<D>,
}

/// The bytes of block `lba` of the part `dev`, if the device holds all of
/// them.
pub open spec fn block_of<D: BlockDriver>(dev: &BlockDev<D>, lba: int) -> Option<Seq<u8>> {
    let sector = dev.block_start + lba * 2;
    if 0 <= lba <= u64::MAX && sector <= usize::MAX && sector * SECTOR_SIZE + BLOCK
        <= dev.driver.content().len() {
        Some(dev.driver.content().subrange(sector * SECTOR_SIZE, sector * SECTOR_SIZE + BLOCK))
    } else {
        None
    }
}

/// Reads block `lba` of the part `dev`.
pub fn read_block<D: BlockDriver>(dev: &BlockDev<D>, lba: Lba) -> (r: Result<Vec<u8>>)
    ensures
        match block_of(dev, lba as int) {
            Some(bytes) => r is Ok && r->Ok_0@ == bytes,
            None => r == Err::<Vec<u8>, Error>(Error::InvalidArgument),
        },
{
    let mut buffer = block_buffer();
    match dev.read(lba, &mut buffer) {
        Ok(_) => Ok(buffer),
        Err(e) => Err(e),
    }
}

impl<D: BlockDriver> Ext2<D> {
    /// The ext2 volume on `dev`, if there is one that the kernel can use.
    /// The superblock must be readable.
    pub fn try_init(dev: BlockDev<D>) -> (r: Result<Option<Ext2<D>>>)
        ensures
            match block_of(&dev, 1) {
                None => r == Err::<Option<Ext2<D>>, Error>(Error::InvalidArgument),
                Some(bytes) => r is Ok && match volume_of(superblock_of(bytes, 0)) {
                    None => r->Ok_0 is None,
                    Some(info) => r->Ok_0 == Some(
                        Ext2 { info, sb: superblock_of(bytes, 0), block_dev: dev },
                    ),
                },
            },
    {
        let buffer = match read_block(&dev, 1) {
            Ok(b) => b,
            Err(e) => {
                return Err(e);
            },
        };
        let sb = SuperBlock::parse(buffer.as_slice());
        match check_superblock(&sb) {
            None => Ok(None),
            Some(info) => Ok(Some(Ext2 { info, sb, block_dev: dev })),
        }
    }

    /// The number of the root directory's inode.
    pub fn get_root_inode(&self) -> (r: Result<Inonum>)
        ensures
            r == Ok::<Inonum, Error>(ROOT_INODE),
    {
        Ok(ROOT_INODE)
    }

    /// The descriptor of block group `index`, which must be one of the
    /// `BLOCK / BGD_SIZE` whose descriptors lie in block 2.
    pub fn get_bg_descriptor(&self, index: usize) -> (r: Result<BGDescriptor>)
        ensures
            match block_of(&self.block_dev, 2) {
                Some(bytes) => if index < BLOCK / BGD_SIZE {
                    r == Ok::<BGDescriptor, Error>(descriptor_of(bytes, index * BGD_SIZE))
                } else {
                    r == Err::<BGDescriptor, Error>(Error::InvalidArgument)
                },
                None => r == Err::<BGDescriptor, Error>(Error::InvalidArgument),
            },
    {
        if index >= BLOCK / BGD_SIZE {
            return Err(Error::InvalidArgument);
        }
        let buffer = match read_block(&self.block_dev, 2) {
            Ok(b) => b,
            Err(e) => {
                return Err(e);
            },
        };
        Ok(BGDescriptor::parse(buffer.as_slice(), index * BGD_SIZE))
    }

    /// Inode `inode_num`, read from the inode table of its block group.
    pub fn get_inode(&self, inode_num: Inonum) -> (r: Result<Inode>)
        ensures
            match inode_at(&self.block_dev, self.sb.inodes_per_group, inode_num) {
                Ok(m) => r is Ok && r->Ok_0@ == m,
                Err(e) => r is Err && r->Err_0 == e,
            },
    {
        let at = match locate_inode(inode_num, self.sb.inodes_per_group) {
            Ok(at) => at,
            Err(e) => {
                return Err(e);
            },
        };
        let bgd = match self.get_bg_descriptor(at.group) {
            Ok(d) => d,
            Err(e) => {
                return Err(e);
            },
        };
        let lba = bgd.inode_table as u64 + at.table_block as u64;
        let buffer = match read_block(&self.block_dev, lba) {
            Ok(b) => b,
            Err(e) => {
                return Err(e);
            },
        };
        Ok(Inode::parse(buffer.as_slice(), at.offset))
    }

    /// Reads inode `inode_num` and gives its virtual inode.
    pub fn read_inode(&self, inode_num: Inonum) -> (r: Result<Vnode>)
        ensures
            r == match inode_at(&self.block_dev, self.sb.inodes_per_group, inode_num) {
                Ok(m) => vnode_of(inode_num, m),
                Err(e) => Err(e),
            },
    {
        let raw = match self.get_inode(inode_num) {
            Ok(raw) => raw,
            Err(e) => {
                return Err(e);
            },
        };
        match vnode_kind(raw.mode) {
            Ok(kind) => Ok(
                Vnode { inode: inode_num, uid: raw.uid, gid: raw.guid, mode: raw.mode, kind },
            ),
            Err(e) => Err(e),
        }
    }

    /// The block of the volume that holds block `index` of the file of
    /// `inode`, if the file has that block.
    pub fn get_lba(&self, inode: &Inode, index: usize) -> (r: Result<Option<Lba>>)
        ensures
            r == lba_of(&self.block_dev, inode@, index as int),
    {
        match block_path(index) {
            BlockPath::Direct(i) => {
                let b = inode.block_ptr[i];
                if b == 0 {
                    Ok(None)
                } else {
                    Ok(Some(b as u64))
                }
            },
            BlockPath::Single(i) => widen(pointer(&self.block_dev, inode.sinlgly_ptr, i)),
            BlockPath::Double(i, j) => match pointer(&self.block_dev, inode.doubly_ptr, i) {
                Err(e) => Err(e),
                Ok(None) => Ok(None),
                Ok(Some(b)) => widen(pointer(&self.block_dev, b, j)),
            },
            BlockPath::Triple(i, j, k) => match pointer(&self.block_dev, inode.triply_ptr, i) {
                Err(e) => Err(e),
                Ok(None) => Ok(None),
                Ok(Some(b)) => match pointer(&self.block_dev, b, j) {
                    Err(e) => Err(e),
                    Ok(None) => Ok(None),
                    Ok(Some(c)) => widen(pointer(&self.block_dev, c, k)),
                },
            },
            BlockPath::Beyond => Ok(None),
        }
    }

    /// The inode that the entry named `name` of the directory with inode
    /// `dir` names, if there is such an entry.
    pub fn lookup(&self, dir: &Inode, name: &Vec<u8>) -> (r: Result<Option<Inonum>>)
        ensures
            r == find(&self.block_dev, dir@, 0, 0, name@),
    {
        let mut at = Ext2Dir { block_index: 0, offset: 0 };
        loop
            invariant
                at.offset < BLOCK,
                find(&self.block_dev, dir@, 0, 0, name@) == find(
                    &self.block_dev,
                    dir@,
                    at.block_index as int,
                    at.offset as int,
                    name@,
                ),
            decreases left(at.block_index as int, at.offset as int),
        {
            match at.readdir(self, dir) {
                Err(e) => {
                    return Err(e);
                },
                Ok(None) => {
                    return Ok(None);
                },
                Ok(Some(entry)) => {
                    if same_bytes(&entry.name, name) {
                        return Ok(Some(entry.inode));
                    }
                },
            }
        }
    }

    /// The inode that the components `components`, from the `skip`-th on,
    /// lead to from the root directory. Empty components are passed over.
    /// A component that is not found, or that is looked for in what is not
    /// a directory, ends the walk with `NotFound`.
    pub fn walk(&self, components: &Vec<Vec<u8>>, skip: usize) -> (r: Result<Inonum>)
        ensures
            r == resolve(
                &self.block_dev,
                self.sb.inodes_per_group,
                crate::fs::vfs::views(components@),
                skip as int,
                ROOT_INODE,
            ),
    {
        let mut inum = ROOT_INODE;
        let n = components.len();
        let mut i = if skip < n { skip } else { n };
        let ghost parts = crate::fs::vfs::views(components@);
        while i < n
            invariant
                i <= n,
                n == components@.len(),
                parts == crate::fs::vfs::views(components@),
                resolve(&self.block_dev, self.sb.inodes_per_group, parts, skip as int, ROOT_INODE)
                    == resolve(&self.block_dev, self.sb.inodes_per_group, parts, i as int, inum),
            decreases n - i,
        {
            let comp = &components[i];
            assert(parts[i as int] == comp@);
            if comp.len() > 0 {
                let inode = match self.get_inode(inum) {
                    Ok(inode) => inode,
                    Err(e) => {
                        return Err(e);
                    },
                };
                match vnode_kind(inode.mode) {
                    Ok(VnodeType::Dir) => {},
                    Ok(_) => {
                        return Err(Error::NotFound);
                    },
                    Err(e) => {
                        return Err(e);
                    },
                }
                match self.lookup(&inode, comp) {
                    Err(e) => {
                        return Err(e);
                    },
                    Ok(None) => {
                        return Err(Error::NotFound);
                    },
                    Ok(Some(next)) => {
                        inum = next;
                    },
                }
            }
            i = i + 1;
        }
        Ok(inum)
    }
}

/// Inode `inode_num` of the volume on `dev` that has `inodes_per_group`
/// inodes in each block group: the descriptor of its group, in block 2,
/// names the inode table in which it lies.
pub open spec fn inode_at<D: BlockDriver>(
    dev: &BlockDev<D>,
    inodes_per_group: u32,
    inode_num: Inonum,
) -> Result<InodeModel> {
    if inode_num == 0 || inode_num > u32::MAX || inodes_per_group == 0 {
        Err(Error::InvalidArgument)
    } else {
        let at = location_of(inode_num as int, inodes_per_group as int);
        if at.group >= BLOCK / BGD_SIZE {
            Err(Error::InvalidArgument)
        } else {
            match block_of(dev, 2) {
                None => Err(Error::InvalidArgument),
                Some(table) => {
                    let bgd = descriptor_of(table, at.group * BGD_SIZE);
                    match block_of(dev, bgd.inode_table + at.table_block) {
                        None => Err(Error::InvalidArgument),
                        Some(bytes) => Ok(inode_of(bytes, at.offset as int)),
                    }
                },
            }
        }
    }
}

/// Block pointer `i` of the block of pointers `block`, where 0 stands for
/// no block.
pub open spec fn pointer_at<D: BlockDriver>(dev: &BlockDev<D>, block: u32, i: int) -> Result<
    Option<u32>,
> {
    if block == 0 {
        Ok(None)
    } else {
        match block_of(dev, block as int) {
            None => Err(Error::InvalidArgument),
            Some(bytes) => {
                let v = le_u32(bytes, 4 * i) as u32;
                if v == 0 {
                    Ok(None)
                } else {
                    Ok(Some(v))
                }
            },
        }
    }
}

/// Reads block pointer `i` of the block of pointers `block`.
pub fn pointer<D: BlockDriver>(dev: &BlockDev<D>, block: u32, i: usize) -> (r: Result<Option<u32>>)
    requires
        i < NL0,
    ensures
        r == pointer_at(dev, block, i as int),
{
    if block == 0 {
        return Ok(None);
    }
    let bytes = match read_block(dev, block as u64) {
        Ok(b) => b,
        Err(e) => {
            return Err(e);
        },
    };
    let v = read_u32(bytes.as_slice(), 4 * i);
    if v == 0 {
        Ok(None)
    } else {
        Ok(Some(v))
    }
}

/// A block pointer as a block address.
pub open spec fn widened(p: Result<Option<u32>>) -> Result<Option<Lba>> {
    match p {
        Err(e) => Err(e),
        Ok(None) => Ok(None),
        Ok(Some(b)) => Ok(Some(b as u64)),
    }
}

/// A block pointer as a block address.
pub fn widen(p: Result<Option<u32>>) -> (r: Result<Option<Lba>>)
    ensures
        r == widened(p),
{
    match p {
        Err(e) => Err(e),
        Ok(None) => Ok(None),
        Ok(Some(b)) => Ok(Some(b as u64)),
    }
}

/// The block of the volume on `dev` that holds block `index` of the file of
/// `inode`: the pointers of the inode and of the indirect blocks are
/// followed along the path to the block, and a pointer that is 0 says that
/// the file has no such block.
pub open spec fn lba_of<D: BlockDriver>(dev: &BlockDev<D>, inode: InodeModel, index: int) -> Result<
    Option<Lba>,
> {
    match path_of(index) {
        BlockPath::Direct(i) => if inode.block_ptr[i as int] == 0 {
            Ok(None)
        } else {
            Ok(Some(inode.block_ptr[i as int] as u64))
        },
        BlockPath::Single(i) => widened(pointer_at(dev, inode.sinlgly_ptr, i as int)),
        BlockPath::Double(i, j) => match pointer_at(dev, inode.doubly_ptr, i as int) {
            Err(e) => Err(e),
            Ok(None) => Ok(None),
            Ok(Some(b)) => widened(pointer_at(dev, b, j as int)),
        },
        BlockPath::Triple(i, j, k) => match pointer_at(dev, inode.triply_ptr, i as int) {
            Err(e) => Err(e),
            Ok(None) => Ok(None),
            Ok(Some(b)) => match pointer_at(dev, b, j as int) {
                Err(e) => Err(e),
                Ok(None) => Ok(None),
                Ok(Some(c)) => widened(pointer_at(dev, c, k as int)),
            },
        },
        BlockPath::Beyond => Ok(None),
    }
}

/// Number of blocks that the pointers of an inode reach.
pub const REACH: usize = 16843020;

/// One entry of a directory, and where the next lies.
pub struct Step {
    pub inode: Inonum,
    pub name: Seq<u8>,
    pub size: int,
    pub block_index: int,
    pub offset: int,
}

/// The entry of the directory of `inode` that lies at `offset` in block
/// `block_index` of the directory, and where the next entry lies. There is
/// none behind the directory's last block. An entry that does not lie in
/// its block with its name, or whose size is not that of its head at
/// least, is refused.
pub open spec fn entry_at<D: BlockDriver>(
    dev: &BlockDev<D>,
    inode: InodeModel,
    block_index: int,
    offset: int,
) -> Result<Option<Step>> {
    match lba_of(dev, inode, block_index) {
        Err(e) => Err(e),
        Ok(None) => Ok(None),
        Ok(Some(lba)) => match block_of(dev, lba as int) {
            None => Err(Error::InvalidArgument),
            Some(bytes) => {
                let head = dentry_of(bytes, offset);
                if offset + DENTRY_HEAD + head.lb_name_length > BLOCK || head.size < DENTRY_HEAD {
                    Err(Error::InvalidArgument)
                } else {
                    Ok(
                        Some(
                            Step {
                                inode: head.inode as u64,
                                name: bytes.subrange(
                                    offset + DENTRY_HEAD,
                                    offset + DENTRY_HEAD + head.lb_name_length,
                                ),
                                size: head.size as int,
                                block_index: if offset + head.size + DENTRY_HEAD > BLOCK {
                                    block_index + 1
                                } else {
                                    block_index
                                },
                                offset: if offset + head.size + DENTRY_HEAD > BLOCK {
                                    0
                                } else {
                                    offset + head.size
                                },
                            },
                        ),
                    )
                }
            },
        },
    }
}

/// How far a reader at `offset` in block `block_index` of a directory is
/// from the end of what an inode's pointers reach.
pub open spec fn left(block_index: int, offset: int) -> int {
    if block_index >= REACH {
        0
    } else {
        (REACH - block_index) * (BLOCK + 1) + (BLOCK - offset)
    }
}

/// The inode that the first entry named `name` names among the entries of
/// the directory of `inode` from the one at `offset` in block `block_index`
/// on.
pub open spec fn find<D: BlockDriver>(
    dev: &BlockDev<D>,
    inode: InodeModel,
    block_index: int,
    offset: int,
    name: Seq<u8>,
) -> Result<Option<Inonum>>
    decreases left(block_index, offset),
{
    if !(0 <= block_index && 0 <= offset < BLOCK) {
        Ok(None)
    } else {
        match entry_at(dev, inode, block_index, offset) {
            Err(e) => Err(e),
            Ok(None) => Ok(None),
            Ok(Some(step)) => if step.name == name {
                Ok(Some(step.inode))
            } else if left(step.block_index, step.offset) < left(block_index, offset) {
                find(dev, inode, step.block_index, step.offset, name)
            } else {
                Ok(None)
            },
        }
    }
}

/// Where the components `parts`, from the `i`-th on, lead to from the
/// directory with inode `inum`.
pub open spec fn resolve<D: BlockDriver>(
    dev: &BlockDev<D>,
    inodes_per_group: u32,
    parts: Seq<Seq<u8>>,
    i: int,
    inum: Inonum,
) -> Result<Inonum>
    decreases parts.len() - i,
{
    if i < 0 || i >= parts.len() {
        Ok(inum)
    } else if parts[i].len() == 0 {
        resolve(dev, inodes_per_group, parts, i + 1, inum)
    } else {
        match inode_at(dev, inodes_per_group, inum) {
            Err(e) => Err(e),
            Ok(inode) => match kind_of(inode.mode) {
                None => Err(Error::NotImplemented),
                Some(VnodeType::Dir) => match find(dev, inode, 0, 0, parts[i]) {
                    Err(e) => Err(e),
                    Ok(None) => Err(Error::NotFound),
                    Ok(Some(next)) => resolve(dev, inodes_per_group, parts, i + 1, next),
                },
                Some(_) => Err(Error::NotFound),
            },
        }
    }
}

/// Where a reader of a directory stands.
pub struct Ext2Dir {
    /// The block of the directory that is read.
    pub block_index: usize,
    /// Where in that block the next entry lies.
    pub offset: usize,
}

impl Ext2Dir {
    /// A reader at the start of a directory.
    pub fn open() -> (d: Ext2Dir)
        ensures
            d.block_index == 0,
            d.offset == 0,
    {
        Ext2Dir { block_index: 0, offset: 0 }
    }

    /// Reads the next entry of the directory with inode `inode` and steps
    /// behind it. Behind the last entry there is none, and the reader stays
    /// where it is; it also stays where an entry is refused.
    pub fn readdir<D: BlockDriver>(&mut self, fs: &Ext2<D>, inode: &Inode) -> (r: Result<
        Option<Dirent>,
    >)
        requires
            old(self).offset < BLOCK,
        ensures
            final(self).offset < BLOCK,
            match entry_at(
                &fs.block_dev,
                inode@,
                old(self).block_index as int,
                old(self).offset as int,
            ) {
                Err(e) => r is Err && r->Err_0 == e && *final(self) == *old(self),
                Ok(None) => r is Ok && r->Ok_0 is None && *final(self) == *old(self),
                Ok(Some(step)) => {
                    &&& r is Ok
                    &&& r->Ok_0 is Some
                    &&& r->Ok_0->Some_0.inode == step.inode
                    &&& r->Ok_0->Some_0.name@ == step.name
                    &&& r->Ok_0->Some_0.size == step.size
                    &&& final(self).block_index == step.block_index
                    &&& final(self).offset == step.offset
                    &&& left(step.block_index, step.offset) < left(
                        old(self).block_index as int,
                        old(self).offset as int,
                    )
                },
            },
    {
        let lba = match fs.get_lba(inode, self.block_index) {
            Err(e) => {
                return Err(e);
            },
            Ok(None) => {
                return Ok(None);
            },
            Ok(Some(lba)) => lba,
        };
        let block = match read_block(&fs.block_dev, lba) {
            Ok(b) => b,
            Err(e) => {
                return Err(e);
            },
        };
        if self.offset + DENTRY_HEAD > BLOCK {
            return Err(Error::InvalidArgument);
        }
        let head = Ext2Dentry::parse(block.as_slice(), self.offset);
        if (head.size as usize) < DENTRY_HEAD {
            return Err(Error::InvalidArgument);
        }
        let name = match head.name(block.as_slice(), self.offset) {
            Some(n) => n,
            None => {
                return Err(Error::InvalidArgument);
            },
        };
        assert(self.block_index < REACH) by {
            if self.block_index >= REACH {
                assert(path_of(self.block_index as int) == BlockPath::Beyond);
            }
        }
        if self.offset + head.size as usize + DENTRY_HEAD > BLOCK {
            self.block_index = self.block_index + 1;
            self.offset = 0;
        } else {
            self.offset = self.offset + head.size as usize;
        }
        Ok(Some(Dirent { inode: head.inode as u64, name, size: head.size as usize }))
    }
}

impl<D: BlockDriver> crate::fs::vfs::Filesystem for Ext2<D> {
    open spec fn target(&self, parts: Seq<Seq<u8>>, skip: int) -> Result<Inonum> {
        resolve(&self.block_dev, self.sb.inodes_per_group, parts, skip, ROOT_INODE)
    }

    open spec fn root(&self) -> Result<Inonum> {
        Ok(ROOT_INODE)
    }

    fn get_root_inode(&self) -> (r: Result<Inonum>) {
        Ext2::get_root_inode(self)
    }

    fn walk(&self, components: &Vec<Vec<u8>>, skip: usize) -> (r: Result<Inonum>) {
        Ext2::walk(self, components, skip)
    }
}

} // verus!
