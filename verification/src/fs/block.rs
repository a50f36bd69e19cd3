//! Block devices and their partitions.

use vstd::prelude::*;
use crate::arch::common::multiboot::{le_u16, le_u32, read_u16, read_u32};
use crate::error::{Error, Result};

verus! {

/// Logical block address.
pub type Lba = u64;

/// Size of a sector in bytes.
pub const SECTOR_SIZE: usize = 512;

/// Number of sectors of one block of a file system.
pub const SECTORS_PER_BLOCK: u64 = 2;

/// Offset of the partition table in the first sector.
pub const PARTITION_TABLE: usize = 446;

/// Size of one entry of the partition table.
pub const PARTITION_ENTRY: usize = 16;

/// What the last two bytes of a first sector with a partition table hold.
pub const MBR_MAGIC: u16 = 0xAA55;

/// What can be read sector by sector.
pub trait BlockDriver {
    /// The bytes of the device.
    spec fn content(&self) -> Seq<u8>;

    /// Reads into `buffer`, all of it, what the device holds from sector
    /// `lba` on. A read beyond the end of the device is refused and leaves
    /// `buffer` as it is.
    fn read(&self, lba: usize, buffer: &mut Vec<u8>) -> (r: Result<usize>)
        ensures
            final(buffer)@.len() == old(buffer)@.len(),
            lba * SECTOR_SIZE + old(buffer)@.len() <= self.content().len() ==> r == Ok::<
                usize,
                Error,
            >(old(buffer)@.len() as usize) && final(buffer)@ == self.content().subrange(
                lba * SECTOR_SIZE,
                lba * SECTOR_SIZE + old(buffer)@.len(),
            ),
            lba * SECTOR_SIZE + old(buffer)@.len() > self.content().len() ==> r == Err::<
                usize,
                Error,
            >(Error::InvalidArgument) && final(buffer)@ == old(buffer)@,
    ;
}

/// A block device in memory.
pub struct RamDisk {
    pub data: Vec<u8>,
}

impl BlockDriver for RamDisk {
    open spec fn content(&self) -> Seq<u8> {
        self.data@
    }

    fn read(&self, lba: usize, buffer: &mut Vec<u8>) -> (r: Result<usize>) {
        let n = buffer.len();
        let total = self.data.len();
        if lba > total / SECTOR_SIZE || n > total - lba * SECTOR_SIZE {
            return Err(Error::InvalidArgument);
        }
        let start = lba * SECTOR_SIZE;
        let mut i: usize = 0;
        while i < n
            invariant
                i <= n,
                self.data@.len() == total,
                start + n <= self.data@.len(),
                buffer@.len() == n,
                forall|k: int| 0 <= k < i ==> buffer@[k] == self.data@[start + k],
            decreases n - i,
        {
            buffer[i] = self.data[start + i];
            i = i + 1;
        }
        assert(buffer@ =~= self.content().subrange(start as int, start + n));
        Ok(n)
    }
}

/// One entry of the partition table.
#[derive(Clone, Copy, Debug, PartialEq, Eq, Structural)]
pub struct MBRPart {
    pub attributes: u8,
    pub part_type: u8,
    /// First sector of the partition.
    pub lba_start: u32,
    /// Number of sectors of the partition.
    pub seccount: u32,
}

/// Entry `i` of the partition table in the first sector `s`.
pub open spec fn partition_of(s: Seq<u8>, i: int) -> MBRPart {
    let at = PARTITION_TABLE + i * PARTITION_ENTRY;
    MBRPart {
        attributes: s[at],
        part_type: s[at + 4],
        lba_start: le_u32(s, at + 8) as u32,
        seccount: le_u32(s, at + 12) as u32,
    }
}

/// Whether the sector `s` ends with the mark of a partition table.
pub open spec fn has_table(s: Seq<u8>) -> bool {
    s.len() >= SECTOR_SIZE && le_u16(s, 510) == MBR_MAGIC
}

/// The four entries of the partition table of the first sector `sector`, if
/// it holds one.
pub fn parse_mbr(sector: &[u8]) -> (r: Option<Vec<MBRPart>>)
    ensures
        !has_table(sector@) ==> r is None,
        has_table(sector@) ==> r is Some && r->Some_0@.len() == 4 && forall|i: int|
            0 <= i < 4 ==> #[trigger] r->Some_0@[i] == partition_of(sector@, i),
{
    if sector.len() < SECTOR_SIZE {
        return None;
    }
    if read_u16(sector, 510) != MBR_MAGIC {
        return None;
    }
    let mut parts: Vec<MBRPart> = Vec::new();
    let mut i: usize = 0;
    while i < 4
        invariant
            i <= 4,
            sector@.len() >= SECTOR_SIZE,
            parts@.len() == i,
            forall|k: int| 0 <= k < i ==> #[trigger] parts@[k] == partition_of(sector@, k),
        decreases 4 - i,
    {
        let at = PARTITION_TABLE + i * PARTITION_ENTRY;
        parts.push(
            MBRPart {
                attributes: sector[at],
                part_type: sector[at + 4],
                lba_start: read_u32(sector, at + 8),
                seccount: read_u32(sector, at + 12),
            },
        );
        i = i + 1;
    }
    Some(parts)
}

/// A part of a block device that a file system addresses block by block.
pub struct BlockDev<D: BlockDriver> {
    /// First sector of the part.
    pub block_start: Lba,
    /// Number of sectors of the part.
    pub seccount: u64,
    pub driver: D,
}

/// The sector of the device at which block `lba` of a part that starts at
/// sector `block_start` lies.
pub open spec fn sector_of(block_start: Lba, lba: Lba) -> int {
    block_start + lba * SECTORS_PER_BLOCK
}

impl<D: BlockDriver> BlockDev<D> {
    /// The block device for partition `part` of `driver`.
    pub fn new(part: MBRPart, driver: D) -> (dev: Self)
        ensures
            dev.block_start == part.lba_start,
            dev.seccount == part.seccount,
            dev.driver == driver,
    {
        BlockDev { block_start: part.lba_start as u64, seccount: part.seccount as u64, driver }
    }

    /// Reads into `buffer` what the part holds from block `lba` on. A block
    /// whose sector number does not fit the machine's word is refused.
    pub fn read(&self, lba: Lba, buffer: &mut Vec<u8>) -> (r: Result<usize>)
        ensures
            final(buffer)@.len() == old(buffer)@.len(),
            ({
                let sector = sector_of(self.block_start, lba);
                let len = old(buffer)@.len();
                if sector <= usize::MAX && sector * SECTOR_SIZE + len
                    <= self.driver.content().len() {
                    &&& r == Ok::<usize, Error>(len as usize)
                    &&& final(buffer)@ == self.driver.content().subrange(
                        sector * SECTOR_SIZE,
                        sector * SECTOR_SIZE + len,
                    )
                } else {
                    &&& r == Err::<usize, Error>(Error::InvalidArgument)
                    &&& final(buffer)@ == old(buffer)@
                }
            }),
    {
        if lba > (u64::MAX - self.block_start) / SECTORS_PER_BLOCK {
            return Err(Error::InvalidArgument);
        }
        let block_index = self.block_start + lba * SECTORS_PER_BLOCK;
        if block_index > usize::MAX as u64 {
            return Err(Error::InvalidArgument);
        }
        self.driver.read(block_index as usize, buffer)
    }
}

/// Adds `dev` to the block devices `devices`.
pub fn register_device<D: BlockDriver>(devices: &mut Vec<D>, dev: D)
    ensures
        final(devices)@ == old(devices)@.push(dev),
{
    devices.push(dev);
}

} // verus!
