use vstd::prelude::*;

pub mod compressor;
pub mod key;
pub mod rc4;
pub mod superblock;
pub mod tables;
pub mod transformer;

verus! {

/// Metadata blocks are 8192 bytes in size.
pub const SQUASHFS_METADATA_SIZE: u32 = 8192;

/// Extracts the offset within a metadata block from an inode reference: an inode
/// reference holds a block position and, in its low 16 bits, the offset inside that block.
pub fn squashfs_inode_offset(inode: u64) -> (r: u32)
    ensures
        r as int == inode as int % 65536,
{
    proof {
        assert((inode & 0xffff) as int == inode as int % 65536) by (bit_vector);
    }
    (inode & 0xffff) as u32
}

} // verus!
