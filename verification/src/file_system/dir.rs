use vstd::prelude::*;
use vstd::string::StringSliceAdditionalSpecFns;
use crate::file_system::block::BLOCK_SIZE;
use crate::file_system::inode::{lemma_u32_bytes, u32_at, u32_byte};

verus! {

/// Longest name, in bytes, that a directory entry holds.
pub const NAME_CAPACITY: usize = 27;

/// Bytes taken by one directory entry in a directory block.
pub const DIR_ENTRY_SIZE: usize = 32;

/// Number of entries in one directory block.
pub const DIR_ENTRIES: usize = 16;

/// First byte of slot `i` in a directory block.
pub open spec fn slot_start(i: int) -> int {
    i * 32
}

/// Inode number held by slot `i` (little-endian, bytes 0..4 of the slot).
pub open spec fn slot_inode(b: Seq<u8>, i: int) -> u32 {
    u32_at(b, slot_start(i))
}

/// Name length held by slot `i` (byte 4 of the slot).
pub open spec fn slot_name_len(b: Seq<u8>, i: int) -> u8 {
    b[slot_start(i) + 4]
}

/// Name held by slot `i`: `slot_name_len` bytes from byte 5 of the slot.
pub open spec fn slot_name(b: Seq<u8>, i: int) -> Seq<u8> {
    b.subrange(slot_start(i) + 5, slot_start(i) + 5 + slot_name_len(b, i))
}

/// A slot is in use when its inode number is not zero.
pub open spec fn slot_used(b: Seq<u8>, i: int) -> bool {
    slot_inode(b, i) != 0
}

/// How many bytes of `name` a directory entry keeps.
pub open spec fn stored_name_len(name: Seq<u8>) -> nat {
    if name.len() <= NAME_CAPACITY {
        name.len()
    } else {
        NAME_CAPACITY as nat
    }
}

/// The bytes of the directory entry for `name` and `inode`: the inode
/// number, the kept length of the name, then the kept bytes of the name,
/// padded with zeros.
pub open spec fn entry_bytes(name: Seq<u8>, inode: u32) -> Seq<u8> {
    Seq::new(
        DIR_ENTRY_SIZE as nat,
        |k: int|
            if k < 4 {
                u32_byte(inode, k)
            } else if k == 4 {
                stored_name_len(name) as u8
            } else if k - 5 < stored_name_len(name) {
                name[k - 5]
            } else {
                0u8
            },
    )
}

/// Block `b` with slot `i` replaced by the entry bytes `e`.
pub open spec fn put_slot(b: Seq<u8>, i: int, e: Seq<u8>) -> Seq<u8> {
    Seq::new(
        b.len(),
        |k: int|
            if slot_start(i) <= k < slot_start(i) + DIR_ENTRY_SIZE {
                e[k - slot_start(i)]
            } else {
                b[k]
            },
    )
}

/// Writing an entry into slot `i` makes slot `i` read back as that entry and
/// leaves every other slot as it was.
pub proof fn lemma_put_slot(b: Seq<u8>, i: int, name: Seq<u8>, inode: u32)
    requires
        b.len() == BLOCK_SIZE,
        0 <= i < DIR_ENTRIES,
    ensures
        slot_inode(put_slot(b, i, entry_bytes(name, inode)), i) == inode,
        slot_name_len(put_slot(b, i, entry_bytes(name, inode)), i) == stored_name_len(name),
        slot_name(put_slot(b, i, entry_bytes(name, inode)), i) == name.take(
            stored_name_len(name) as int,
        ),
        forall|j: int|
            0 <= j < DIR_ENTRIES && j != i ==> {
                &&& #[trigger] slot_inode(put_slot(b, i, entry_bytes(name, inode)), j)
                    == slot_inode(b, j)
                &&& slot_name_len(put_slot(b, i, entry_bytes(name, inode)), j) == slot_name_len(
                    b,
                    j,
                )
                &&& slot_name_len(b, j) <= NAME_CAPACITY ==> slot_name(
                    put_slot(b, i, entry_bytes(name, inode)),
                    j,
                ) == slot_name(b, j)
            },
{
    let p = put_slot(b, i, entry_bytes(name, inode));
    lemma_u32_bytes(inode);
    assert(slot_name(p, i) =~= name.take(stored_name_len(name) as int));
    assert forall|j: int| 0 <= j < DIR_ENTRIES && j != i implies {
        &&& #[trigger] slot_inode(p, j) == slot_inode(b, j)
        &&& slot_name_len(p, j) == slot_name_len(b, j)
        &&& slot_name_len(b, j) <= NAME_CAPACITY ==> slot_name(p, j) == slot_name(b, j)
    } by {
        if slot_name_len(b, j) <= NAME_CAPACITY {
            assert(slot_name(p, j) =~= slot_name(b, j));
        }
    }
}

/// A directory entry: the inode it names, and up to `NAME_CAPACITY` bytes
/// of name.
#[derive(Clone, Copy)]
pub struct DirEntry {
    pub inode: u32,
    pub name_len: u8,
    pub name: [u8; NAME_CAPACITY],
}

impl DirEntry {
    /// The bytes of this entry as a directory slot holds them.
    pub open spec fn layout(&self) -> Seq<u8> {
        Seq::new(
            DIR_ENTRY_SIZE as nat,
            |k: int|
                if k < 4 {
                    u32_byte(self.inode, k)
                } else if k == 4 {
                    self.name_len
                } else {
                    self.name@[k - 5]
                },
        )
    }

    /// The name this entry holds, when its length fits its name field.
    pub open spec fn name_bytes(&self) -> Seq<u8> {
        self.name@.take(self.name_len as int)
    }

    /// The entry for `name` and `inode`; a name longer than
    /// `NAME_CAPACITY` bytes is cut to its first `NAME_CAPACITY` bytes.
    pub fn new(name: &str, inode: u32) -> (entry: DirEntry)
        ensures
            entry.layout() == entry_bytes(name.spec_bytes(), inode),
            entry.inode == inode,
            entry.name_len == stored_name_len(name.spec_bytes()),
            entry.name_bytes() == name.spec_bytes().take(stored_name_len(name.spec_bytes()) as int),
    {
        let bytes = name.as_bytes();
        let len: usize = if bytes.len() <= NAME_CAPACITY {
            bytes.len()
        } else {
            NAME_CAPACITY
        };
        let mut stored = [0u8; NAME_CAPACITY];
        let mut k: usize = 0;
        while k < len
            invariant
                len <= NAME_CAPACITY,
                len <= bytes@.len(),
                k <= len,
                forall|j: int| 0 <= j < k ==> stored@[j] == bytes@[j],
                forall|j: int| k <= j < NAME_CAPACITY ==> stored@[j] == 0,
            decreases len - k,
        {
            stored[k] = bytes[k];
            k = k + 1;
        }
        let entry = DirEntry { inode, name_len: len as u8, name: stored };
        assert(entry.layout() =~= entry_bytes(name.spec_bytes(), inode));
        assert(entry.name_bytes() =~= name.spec_bytes().take(len as int));
        entry
    }

    /// Reads the entry stored in slot `slot` of a directory block.
    pub fn load(block: &[u8; BLOCK_SIZE], slot: usize) -> (entry: DirEntry)
        requires
            slot < DIR_ENTRIES,
        ensures
            entry.inode == slot_inode(block@, slot as int),
            entry.name_len == slot_name_len(block@, slot as int),
            entry.name@ == block@.subrange(
                slot_start(slot as int) + 5,
                slot_start(slot as int) + DIR_ENTRY_SIZE,
            ),
            entry.name_len <= NAME_CAPACITY ==> entry.name_bytes() == slot_name(
                block@,
                slot as int,
            ),
    {
        let base = slot * DIR_ENTRY_SIZE;
        let inode = (block[base] as u32) | ((block[base + 1] as u32) << 8) | ((block[base
            + 2] as u32) << 16) | ((block[base + 3] as u32) << 24);
        let name_len = block[base + 4];
        let mut name = [0u8; NAME_CAPACITY];
        let mut k: usize = 0;
        while k < NAME_CAPACITY
            invariant
                base == slot_start(slot as int),
                slot < DIR_ENTRIES,
                k <= NAME_CAPACITY,
                forall|j: int| 0 <= j < k ==> name@[j] == block@[base + 5 + j],
            decreases NAME_CAPACITY - k,
        {
            name[k] = block[base + 5 + k];
            k = k + 1;
        }
        let entry = DirEntry { inode, name_len, name };
        assert(entry.name@ =~= block@.subrange(base + 5, base + DIR_ENTRY_SIZE));
        if name_len as usize <= NAME_CAPACITY {
            assert(entry.name_bytes() =~= slot_name(block@, slot as int));
        }
        entry
    }

    /// Writes this entry into slot `slot` of a directory block.
    pub fn store(&self, block: &mut [u8; BLOCK_SIZE], slot: usize)
        requires
            slot < DIR_ENTRIES,
        ensures
            final(block)@ == put_slot(old(block)@, slot as int, self.layout()),
    {
        let base = slot * DIR_ENTRY_SIZE;
        let mut bytes = [0u8; DIR_ENTRY_SIZE];
        bytes[0] = (self.inode & 0xff) as u8;
        bytes[1] = ((self.inode >> 8) & 0xff) as u8;
        bytes[2] = ((self.inode >> 16) & 0xff) as u8;
        bytes[3] = ((self.inode >> 24) & 0xff) as u8;
        bytes[4] = self.name_len;
        let mut k: usize = 0;
        while k < NAME_CAPACITY
            invariant
                k <= NAME_CAPACITY,
                forall|j: int| 0 <= j < 5 ==> bytes@[j] == self.layout()[j],
                forall|j: int| 5 <= j < 5 + k ==> bytes@[j] == self.layout()[j],
            decreases NAME_CAPACITY - k,
        {
            bytes[5 + k] = self.name[k];
            k = k + 1;
        }
        assert(bytes@ =~= self.layout());
        let mut k: usize = 0;
        while k < DIR_ENTRY_SIZE
            invariant
                base == slot_start(slot as int),
                slot < DIR_ENTRIES,
                k <= DIR_ENTRY_SIZE,
                bytes@ == self.layout(),
                forall|j: int|
                    0 <= j < BLOCK_SIZE ==> block@[j] == if base <= j < base + k {
                        bytes@[j - base]
                    } else {
                        old(block)@[j]
                    },
            decreases DIR_ENTRY_SIZE - k,
        {
            block[base + k] = bytes[k];
            k = k + 1;
        }
        assert(block@ =~= put_slot(old(block)@, slot as int, self.layout()));
    }

    /// Whether the name this entry holds is `name`.
    pub fn name_is(&self, name: &[u8]) -> (same: bool)
        requires
            self.name_len <= NAME_CAPACITY,
        ensures
            same == (self.name_bytes() == name@),
    {
        let len = self.name_len as usize;
        if len != name.len() {
            return false;
        }
        let mut k: usize = 0;
        while k < len
            invariant
                len == self.name_len,
                len <= NAME_CAPACITY,
                len == name@.len(),
                k <= len,
                forall|j: int| 0 <= j < k ==> self.name@[j] == name@[j],
            decreases len - k,
        {
            if self.name[k] != name[k] {
                return false;
            }
            k = k + 1;
        }
        assert(self.name_bytes() =~= name@);
        true
    }
}

} // verus!
