use vstd::prelude::*;
use crate::file_system::block::BLOCK_SIZE;

verus! {

/// `file_type` of an inode that holds nothing.
pub const FILE_TYPE_FREE: u8 = 0;

/// `file_type` of a regular file.
pub const FILE_TYPE_FILE: u8 = 1;

/// `file_type` of a directory.
pub const FILE_TYPE_DIR: u8 = 2;

/// An inode: the size of a file, the block that holds its data and its type.
#[derive(Clone, Copy, Debug, PartialEq, Eq, Structural)]
pub struct Inode {
    pub size: u32,
    pub block: u32,
    pub file_type: u8,
}

/// Byte `k` (0 to 3) of `x` in little-endian order.
pub open spec fn u32_byte(x: u32, k: int) -> u8 {
    if k == 0 {
        (x & 0xff) as u8
    } else if k == 1 {
        ((x >> 8) & 0xff) as u8
    } else if k == 2 {
        ((x >> 16) & 0xff) as u8
    } else {
        ((x >> 24) & 0xff) as u8
    }
}

/// The `u32` whose little-endian bytes are `b0`, `b1`, `b2`, `b3`.
pub open spec fn le_u32(b0: u8, b1: u8, b2: u8, b3: u8) -> u32 {
    (b0 as u32) | ((b1 as u32) << 8) | ((b2 as u32) << 16) | ((b3 as u32) << 24)
}

/// The little-endian `u32` stored in `b` at `off`.
pub open spec fn u32_at(b: Seq<u8>, off: int) -> u32 {
    le_u32(b[off], b[off + 1], b[off + 2], b[off + 3])
}

/// Decoding the four little-endian bytes of `x` gives back `x`.
pub proof fn lemma_u32_bytes(x: u32)
    ensures
        le_u32(u32_byte(x, 0), u32_byte(x, 1), u32_byte(x, 2), u32_byte(x, 3)) == x,
{
    assert(le_u32(
        (x & 0xff) as u8,
        ((x >> 8) & 0xff) as u8,
        ((x >> 16) & 0xff) as u8,
        ((x >> 24) & 0xff) as u8,
    ) == x) by (bit_vector);
}

/// Four zero bytes read as zero.
pub proof fn lemma_u32_zero()
    ensures
        le_u32(0, 0, 0, 0) == 0,
{
    assert(le_u32(0, 0, 0, 0) == 0) by (bit_vector);
}

/// An inode as read from an inode block: `size` in bytes 0..4, `block` in
/// bytes 4..8 (both little-endian) and `file_type` in byte 8.
pub open spec fn decode_inode(b: Seq<u8>) -> Inode {
    Inode { size: u32_at(b, 0), block: u32_at(b, 4), file_type: b[8] }
}

/// The inode block that holds `inode`: its fields laid out as `decode_inode`
/// reads them, every other byte zero.
pub open spec fn encode_inode(inode: Inode) -> Seq<u8> {
    Seq::new(
        BLOCK_SIZE as nat,
        |k: int|
            if k < 4 {
                u32_byte(inode.size, k)
            } else if k < 8 {
                u32_byte(inode.block, k - 4)
            } else if k == 8 {
                inode.file_type
            } else {
                0u8
            },
    )
}

/// Decoding an encoded inode gives it back.
pub proof fn lemma_inode_roundtrip(inode: Inode)
    ensures
        decode_inode(encode_inode(inode)) == inode,
{
    lemma_u32_bytes(inode.size);
    lemma_u32_bytes(inode.block);
}

impl Inode {
    /// The inode of nothing: size 0, no block, type free.
    pub open spec fn spec_default() -> Inode {
        Inode { size: 0, block: 0, file_type: FILE_TYPE_FREE }
    }

    /// Lays the inode out as an inode block.
    pub fn encode(&self) -> (bytes: [u8; BLOCK_SIZE])
        ensures
            bytes@ == encode_inode(*self),
    {
        let mut bytes = [0u8; BLOCK_SIZE];
        bytes[0] = (self.size & 0xff) as u8;
        bytes[1] = ((self.size >> 8) & 0xff) as u8;
        bytes[2] = ((self.size >> 16) & 0xff) as u8;
        bytes[3] = ((self.size >> 24) & 0xff) as u8;
        bytes[4] = (self.block & 0xff) as u8;
        bytes[5] = ((self.block >> 8) & 0xff) as u8;
        bytes[6] = ((self.block >> 16) & 0xff) as u8;
        bytes[7] = ((self.block >> 24) & 0xff) as u8;
        bytes[8] = self.file_type;
        assert(bytes@ =~= encode_inode(*self));
        bytes
    }

    /// Reads an inode out of an inode block.
    pub fn decode(bytes: &[u8; BLOCK_SIZE]) -> (inode: Inode)
        ensures
            inode == decode_inode(bytes@),
    {
        let size = (bytes[0] as u32) | ((bytes[1] as u32) << 8) | ((bytes[2] as u32) << 16) | ((
        bytes[3] as u32) << 24);
        let block = (bytes[4] as u32) | ((bytes[5] as u32) << 8) | ((bytes[6] as u32) << 16) | ((
        bytes[7] as u32) << 24);
        Inode { size, block, file_type: bytes[8] }
    }
}

impl Default for Inode {
    fn default() -> (inode: Inode)
        ensures
            inode == Inode::spec_default(),
    {
        Inode { size: 0, block: 0, file_type: FILE_TYPE_FREE }
    }
}

} // verus!
