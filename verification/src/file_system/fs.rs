use vstd::prelude::*;
use vstd::string::StringSliceAdditionalSpecFns;
use crate::file_system::block::{disk_shape, zero_block, Disk, BLOCK_SIZE, NUM_BLOCKS};
use crate::file_system::dir::{
    entry_bytes, lemma_put_slot, put_slot, slot_inode, slot_name, slot_name_len, slot_used,
    DirEntry, DIR_ENTRIES, NAME_CAPACITY,
};
use vstd::utf8::{decode_utf8, valid_utf8};
use crate::text::utf8_text;
use crate::file_system::inode::{
    decode_inode, encode_inode, lemma_inode_roundtrip, lemma_u32_zero, Inode, FILE_TYPE_DIR,
    FILE_TYPE_FILE, FILE_TYPE_FREE,
};

verus! {

/// Block that holds inode 0; inode `n` sits in block `INODE_START + n`.
pub const INODE_START: usize = 1;

/// Number of inodes.
pub const INODE_COUNT: usize = 16;

/// First block after the inode blocks; the root directory lives there.
pub const DATA_START: usize = INODE_START + INODE_COUNT;

/// What a file-system operation can fail with.
#[derive(Clone, Copy, Debug, PartialEq, Eq, Structural)]
pub enum FsError {
    /// No directory entry has the name.
    NotFound,
    /// Every inode is in use.
    NoFreeInodes,
    /// The file has no data block.
    EmptyFile,
    /// The file's bytes are not UTF-8.
    InvalidData,
}

// ----------------------------------------------------------------------
// The on-disk model

/// Inode `n` as stored on disk `d`.
pub open spec fn inode_of(d: Seq<Seq<u8>>, n: int) -> Inode {
    decode_inode(d[INODE_START + n])
}

/// The block of the root directory: the block of inode 0.
pub open spec fn root_dir_block(d: Seq<Seq<u8>>) -> int {
    inode_of(d, 0).block as int
}

/// The bytes of the root directory.
pub open spec fn root_dir(d: Seq<Seq<u8>>) -> Seq<u8> {
    d[root_dir_block(d)]
}

/// The inode of the first used slot, from slot `i` on, whose name is `name`.
pub open spec fn find_in(b: Seq<u8>, name: Seq<u8>, i: int) -> Option<u32>
    decreases DIR_ENTRIES - i,
{
    if i >= DIR_ENTRIES {
        None
    } else if slot_used(b, i) && slot_name(b, i) == name {
        Some(slot_inode(b, i))
    } else {
        find_in(b, name, i + 1)
    }
}

/// A search for `name` from slot `i` on meets no used slot whose name
/// length overruns its name field before it meets `name`.
pub open spec fn search_safe(b: Seq<u8>, name: Seq<u8>, i: int) -> bool
    decreases DIR_ENTRIES - i,
{
    if i >= DIR_ENTRIES {
        true
    } else if slot_used(b, i) {
        slot_name_len(b, i) <= NAME_CAPACITY && (slot_name(b, i) == name || search_safe(
            b,
            name,
            i + 1,
        ))
    } else {
        search_safe(b, name, i + 1)
    }
}

/// The first unused slot from slot `i` on, or `DIR_ENTRIES` if there is none.
pub open spec fn free_slot_in(b: Seq<u8>, i: int) -> int
    decreases DIR_ENTRIES - i,
{
    if i >= DIR_ENTRIES {
        DIR_ENTRIES as int
    } else if !slot_used(b, i) {
        i
    } else {
        free_slot_in(b, i + 1)
    }
}

/// The first free inode from inode `n` on, or `INODE_COUNT` if there is none.
pub open spec fn free_inode_from(d: Seq<Seq<u8>>, n: int) -> int
    decreases INODE_COUNT - n,
{
    if n >= INODE_COUNT {
        INODE_COUNT as int
    } else if inode_of(d, n).file_type == FILE_TYPE_FREE {
        n
    } else {
        free_inode_from(d, n + 1)
    }
}

/// Disk `d` with inode `n` replaced by `inode`.
pub open spec fn with_inode(d: Seq<Seq<u8>>, n: int, inode: Inode) -> Seq<Seq<u8>> {
    d.update(INODE_START + n, encode_inode(inode))
}

/// Disk `d` with the entry for `name` and `inode` in the first unused slot
/// of the root directory; `d` itself when every slot is used.
pub open spec fn with_entry(d: Seq<Seq<u8>>, name: Seq<u8>, inode: u32) -> Seq<Seq<u8>> {
    let s = free_slot_in(root_dir(d), 0);
    if s < DIR_ENTRIES {
        d.update(root_dir_block(d), put_slot(root_dir(d), s, entry_bytes(name, inode)))
    } else {
        d
    }
}

/// The inode of the root directory.
pub open spec fn root_inode() -> Inode {
    Inode { size: 0, block: DATA_START as u32, file_type: FILE_TYPE_DIR }
}

/// The inode of a newly created, empty file.
pub open spec fn new_file_inode() -> Inode {
    Inode { size: 0, block: 0, file_type: FILE_TYPE_FILE }
}

/// The disk after creating `name`: the first free inode from inode 1 on
/// becomes an empty file and gets a directory entry.
pub open spec fn after_create(d: Seq<Seq<u8>>, name: Seq<u8>) -> Seq<Seq<u8>> {
    let k = free_inode_from(d, 1);
    if k < INODE_COUNT {
        with_entry(with_inode(d, k, new_file_inode()), name, k as u32)
    } else {
        d
    }
}

/// What creating a file answers: the inode it took, or that none was free.
pub open spec fn create_result(d: Seq<Seq<u8>>) -> Result<u32, FsError> {
    let k = free_inode_from(d, 1);
    if k < INODE_COUNT {
        Ok(k as u32)
    } else {
        Err(FsError::NoFreeInodes)
    }
}

/// The inode named `name` in the root directory of `d`.
pub open spec fn lookup(d: Seq<Seq<u8>>, name: Seq<u8>) -> Option<u32> {
    find_in(root_dir(d), name, 0)
}

/// The root directory of `d` can be read and searched for `name`.
pub open spec fn lookup_safe(d: Seq<Seq<u8>>, name: Seq<u8>) -> bool {
    &&& 0 <= root_dir_block(d) < NUM_BLOCKS
    &&& search_safe(root_dir(d), name, 0)
}


/// The block a write to inode `k` goes to: its own data block, or the next
/// one to hand out when it has none.
pub open spec fn target_block(d: Seq<Seq<u8>>, next: int, k: int) -> int {
    if inode_of(d, k).block == 0 {
        next
    } else {
        inode_of(d, k).block as int
    }
}

/// The next data block to hand out after a write to inode `k`.
pub open spec fn next_after_write(d: Seq<Seq<u8>>, next: int, k: int) -> int {
    if inode_of(d, k).block == 0 {
        next + 1
    } else {
        next
    }
}

/// How many bytes of `content` a file keeps: at most one block.
pub open spec fn kept_len(content: Seq<u8>) -> nat {
    if content.len() < BLOCK_SIZE {
        content.len()
    } else {
        BLOCK_SIZE as nat
    }
}

/// The data block that holds `content`: its kept bytes, then zeros.
pub open spec fn data_block(content: Seq<u8>) -> Seq<u8> {
    Seq::new(BLOCK_SIZE as nat, |i: int| if i < kept_len(content) { content[i] } else { 0u8 })
}

/// Inode `k` after `content` is written to it: the kept length, the
/// target block, and the type it had.
pub open spec fn written_inode(d: Seq<Seq<u8>>, next: int, k: int, content: Seq<u8>) -> Inode {
    Inode {
        size: kept_len(content) as u32,
        block: target_block(d, next, k) as u32,
        file_type: inode_of(d, k).file_type,
    }
}

/// The disk after writing `content` to inode `k`: the data block first,
/// then the inode.
pub open spec fn after_write(d: Seq<Seq<u8>>, next: int, k: int, content: Seq<u8>) -> Seq<
    Seq<u8>,
> {
    with_inode(
        d.update(target_block(d, next, k), data_block(content)),
        k,
        written_inode(d, next, k, content),
    )
}

/// Writing to the file `name` reads and writes only blocks of the disk.
pub open spec fn write_safe(d: Seq<Seq<u8>>, next: int, name: Seq<u8>) -> bool {
    &&& lookup_safe(d, name)
    &&& lookup(d, name) matches Some(k) ==> {
        &&& k < NUM_BLOCKS - INODE_START
        &&& 0 <= target_block(d, next, k as int) < NUM_BLOCKS
    }
}

/// The bytes of the file `name`: its first `size` bytes of its data block,
/// `EmptyFile` when it has no data block, `NotFound` when no entry has the
/// name.
pub open spec fn file_bytes(d: Seq<Seq<u8>>, name: Seq<u8>) -> Result<Seq<u8>, FsError> {
    match lookup(d, name) {
        None => Err(FsError::NotFound),
        Some(k) => {
            let inode = inode_of(d, k as int);
            if inode.block == 0 {
                Err(FsError::EmptyFile)
            } else {
                Ok(d[inode.block as int].take(inode.size as int))
            }
        },
    }
}

/// The text of the file `name`: its bytes read as UTF-8, `InvalidData`
/// when they are not UTF-8.
pub open spec fn file_text(d: Seq<Seq<u8>>, name: Seq<u8>) -> Result<Seq<char>, FsError> {
    match file_bytes(d, name) {
        Err(e) => Err(e),
        Ok(b) => if valid_utf8(b) {
            Ok(decode_utf8(b))
        } else {
            Err(FsError::InvalidData)
        },
    }
}

/// Reading the file `name` reads only within blocks of the disk.
pub open spec fn read_safe(d: Seq<Seq<u8>>, name: Seq<u8>) -> bool {
    &&& lookup_safe(d, name)
    &&& lookup(d, name) matches Some(k) ==> {
        &&& k < NUM_BLOCKS - INODE_START
        &&& inode_of(d, k as int).block != 0 ==> {
            &&& inode_of(d, k as int).block < NUM_BLOCKS
            &&& inode_of(d, k as int).size <= BLOCK_SIZE
        }
    }
}

/// Looking up `name` finds an inode whose block can be read.
pub open spec fn inode_safe(d: Seq<Seq<u8>>, name: Seq<u8>) -> bool {
    &&& lookup_safe(d, name)
    &&& lookup(d, name) matches Some(k) ==> k < NUM_BLOCKS - INODE_START
}

/// The names of the used slots of directory block `b` among its first `i`
/// slots, in slot order.
pub open spec fn names_upto(b: Seq<u8>, i: int) -> Seq<Seq<u8>>
    decreases i,
{
    if i <= 0 {
        Seq::empty()
    } else if slot_used(b, i - 1) {
        names_upto(b, i - 1).push(slot_name(b, i - 1))
    } else {
        names_upto(b, i - 1)
    }
}

/// The names in the root directory, in slot order.
pub open spec fn file_names(d: Seq<Seq<u8>>) -> Seq<Seq<u8>> {
    names_upto(root_dir(d), DIR_ENTRIES as int)
}

/// Every used slot of the root directory has a name that fits its field.
pub open spec fn list_safe(d: Seq<Seq<u8>>) -> bool {
    &&& 0 <= root_dir_block(d) < NUM_BLOCKS
    &&& forall|i: int|
        0 <= i < DIR_ENTRIES && #[trigger] slot_used(root_dir(d), i) ==> slot_name_len(
            root_dir(d),
            i,
        ) <= NAME_CAPACITY
}

/// The inode named `name`, with its number.
pub open spec fn stat_of(d: Seq<Seq<u8>>, name: Seq<u8>) -> Option<(u32, Inode)> {
    match lookup(d, name) {
        None => None,
        Some(k) => Some((k, inode_of(d, k as int))),
    }
}

/// The first used slot, from slot `i` on, whose name is `name`, or
/// `DIR_ENTRIES` when there is none.
pub open spec fn find_slot_in(b: Seq<u8>, name: Seq<u8>, i: int) -> int
    decreases DIR_ENTRIES - i,
{
    if i >= DIR_ENTRIES {
        DIR_ENTRIES as int
    } else if slot_used(b, i) && slot_name(b, i) == name {
        i
    } else {
        find_slot_in(b, name, i + 1)
    }
}

/// The bytes of an unused slot: all zero.
pub open spec fn empty_entry() -> Seq<u8> {
    entry_bytes(Seq::<u8>::empty(), 0)
}

/// Disk `d` with slot `s` of the root directory made unused.
pub open spec fn without_slot(d: Seq<Seq<u8>>, s: int) -> Seq<Seq<u8>> {
    d.update(root_dir_block(d), put_slot(root_dir(d), s, empty_entry()))
}

/// The disk after deleting `name`: the slot that names it is made unused,
/// then the inode it named is cleared.
pub open spec fn after_delete(d: Seq<Seq<u8>>, name: Seq<u8>) -> Seq<Seq<u8>> {
    match lookup(d, name) {
        None => d,
        Some(k) => with_inode(
            without_slot(d, find_slot_in(root_dir(d), name, 0)),
            k as int,
            Inode::spec_default(),
        ),
    }
}

// ----------------------------------------------------------------------
// The invariant

/// A used slot names a real inode other than the root, and its name length
/// fits its name field.
pub open spec fn slot_sound(b: Seq<u8>, i: int) -> bool {
    slot_used(b, i) ==> {
        &&& slot_inode(b, i) < INODE_COUNT
        &&& slot_name_len(b, i) <= NAME_CAPACITY
    }
}

/// Every slot of directory block `b` is sound.
pub open spec fn dir_sound(b: Seq<u8>) -> bool {
    forall|i: int| 0 <= i < DIR_ENTRIES ==> #[trigger] slot_sound(b, i)
}

/// A file inode's size fits a block, and its data block is either none or
/// a data block handed out before `next`.
pub open spec fn inode_sound(inode: Inode, next: int) -> bool {
    &&& inode.size <= BLOCK_SIZE
    &&& inode.block == 0 || (DATA_START < inode.block && inode.block < next)
}

/// The invariant of the file system, with `next` the next data block to
/// hand out: the root directory is block 0 (before `init`) or
/// `DATA_START`, both of those blocks hold sound directories, every file
/// inode is sound, and no two file inodes share a data block.
pub open spec fn fs_wf(d: Seq<Seq<u8>>, next: int) -> bool {
    &&& disk_shape(d)
    &&& DATA_START < next <= NUM_BLOCKS
    &&& (root_dir_block(d) == 0 || root_dir_block(d) == DATA_START)
    &&& dir_sound(d[0])
    &&& dir_sound(d[DATA_START as int])
    &&& forall|n: int| 1 <= n < INODE_COUNT ==> inode_sound(#[trigger] inode_of(d, n), next)
    &&& forall|n: int, m: int|
        1 <= n < INODE_COUNT && 1 <= m < INODE_COUNT && n != m && #[trigger] inode_of(d, n).block
            != 0 ==> inode_of(d, n).block != #[trigger] inode_of(d, m).block
}

/// The disk of a new file system: every byte zero.
pub open spec fn zero_disk() -> Seq<Seq<u8>> {
    Seq::new(NUM_BLOCKS as nat, |i: int| zero_block())
}

// ----------------------------------------------------------------------
// Lemmas

/// A sound directory can be searched for any name.
pub proof fn lemma_sound_dir_search_safe(b: Seq<u8>, name: Seq<u8>, i: int)
    requires
        dir_sound(b),
        0 <= i <= DIR_ENTRIES,
    ensures
        search_safe(b, name, i),
    decreases DIR_ENTRIES - i,
{
    if i < DIR_ENTRIES {
        assert(slot_sound(b, i));
        lemma_sound_dir_search_safe(b, name, i + 1);
    }
}

/// Finding a name in a sound directory gives a file inode.
pub proof fn lemma_sound_dir_find(b: Seq<u8>, name: Seq<u8>, i: int)
    requires
        dir_sound(b),
        0 <= i <= DIR_ENTRIES,
    ensures
        find_in(b, name, i) matches Some(k) ==> 1 <= k < INODE_COUNT,
    decreases DIR_ENTRIES - i,
{
    if i < DIR_ENTRIES {
        assert(slot_sound(b, i));
        lemma_sound_dir_find(b, name, i + 1);
    }
}

/// In a well-formed file system every lookup is safe and names a file inode.
pub proof fn lemma_wf_lookup(d: Seq<Seq<u8>>, next: int, name: Seq<u8>)
    requires
        fs_wf(d, next),
    ensures
        lookup_safe(d, name),
        lookup(d, name) matches Some(k) ==> 1 <= k < INODE_COUNT,
{
    lemma_sound_dir_search_safe(root_dir(d), name, 0);
    lemma_sound_dir_find(root_dir(d), name, 0);
}

/// The slot found for `name` is the one whose inode the search answers.
pub proof fn lemma_find_slot(b: Seq<u8>, name: Seq<u8>, i: int)
    requires
        0 <= i <= DIR_ENTRIES,
    ensures
        i <= find_slot_in(b, name, i) <= DIR_ENTRIES,
        find_slot_in(b, name, i) == DIR_ENTRIES <==> find_in(b, name, i) is None,
        find_slot_in(b, name, i) < DIR_ENTRIES ==> {
            &&& slot_used(b, find_slot_in(b, name, i))
            &&& slot_name(b, find_slot_in(b, name, i)) == name
            &&& find_in(b, name, i) == Some(slot_inode(b, find_slot_in(b, name, i)))
        },
        forall|j: int|
            i <= j < find_slot_in(b, name, i) ==> !(slot_used(b, j) && slot_name(b, j) == name),
    decreases DIR_ENTRIES - i,
{
    if i < DIR_ENTRIES {
        lemma_find_slot(b, name, i + 1);
    }
}

/// The free slot found is unused, and it is the first one.
pub proof fn lemma_free_slot(b: Seq<u8>, i: int)
    requires
        0 <= i <= DIR_ENTRIES,
    ensures
        i <= free_slot_in(b, i) <= DIR_ENTRIES,
        free_slot_in(b, i) < DIR_ENTRIES ==> !slot_used(b, free_slot_in(b, i)),
        forall|j: int| i <= j < free_slot_in(b, i) ==> slot_used(b, j),
    decreases DIR_ENTRIES - i,
{
    if i < DIR_ENTRIES {
        lemma_free_slot(b, i + 1);
    }
}

/// The free inode found is free, and it is the first one.
pub proof fn lemma_free_inode(d: Seq<Seq<u8>>, n: int)
    requires
        0 <= n <= INODE_COUNT,
    ensures
        n <= free_inode_from(d, n) <= INODE_COUNT,
        free_inode_from(d, n) < INODE_COUNT ==> inode_of(d, free_inode_from(d, n)).file_type
            == FILE_TYPE_FREE,
    decreases INODE_COUNT - n,
{
    if n < INODE_COUNT {
        lemma_free_inode(d, n + 1);
    }
}

/// A sound directory stays sound when a sound entry is written to a slot.
pub proof fn lemma_put_slot_sound(b: Seq<u8>, i: int, name: Seq<u8>, inode: u32)
    requires
        b.len() == BLOCK_SIZE,
        dir_sound(b),
        0 <= i < DIR_ENTRIES,
        inode < INODE_COUNT,
    ensures
        dir_sound(put_slot(b, i, entry_bytes(name, inode))),
{
    lemma_put_slot(b, i, name, inode);
    let p = put_slot(b, i, entry_bytes(name, inode));
    assert forall|j: int| 0 <= j < DIR_ENTRIES implies #[trigger] slot_sound(p, j) by {
        if j != i {
            assert(slot_sound(b, j));
        }
    }
}

/// The disk of a new file system is well formed.
pub proof fn lemma_zero_disk_wf()
    ensures
        fs_wf(zero_disk(), DATA_START as int + 1),
{
    let d = zero_disk();
    lemma_u32_zero();
    assert forall|n: int| 0 <= n < INODE_COUNT implies #[trigger] inode_of(d, n) == Inode::spec_default() by {
        assert(d[INODE_START + n] == zero_block());
    }
    assert(inode_of(d, 0) == Inode::spec_default());
    assert forall|i: int| 0 <= i < DIR_ENTRIES implies #[trigger] slot_sound(d[0], i) by {
        assert(slot_inode(d[0], i) == 0);
    }
    assert forall|i: int| 0 <= i < DIR_ENTRIES implies #[trigger] slot_sound(d[DATA_START as int], i) by {
        assert(slot_inode(d[DATA_START as int], i) == 0);
    }
}

// ----------------------------------------------------------------------
// The file system

/// A file system on a disk: inodes in blocks `INODE_START..DATA_START`,
/// the root directory in the block of inode 0, file data in blocks handed
/// out from `DATA_START + 1` on.
pub struct FileSystem {
    pub disk: Disk,
    next_data_block: usize,
}

/// What a file system is: the bytes of its disk's blocks, and the next
/// data block it hands out.
#[verifier::ext_equal]
pub struct FsView {
    pub blocks: Seq<Seq<u8>>,
    pub next: int,
}

impl View for FileSystem {
    type V = FsView;

    closed spec fn view(&self) -> FsView {
        FsView { blocks: self.disk@, next: self.next_data_block as int }
    }
}

impl FileSystem {
    /// The next data block to hand out is a block number: never negative.
    pub proof fn lemma_next_block_nonnegative(&self)
        ensures
            self@.next >= 0,
    {
    }

    /// The file system's invariant holds.
    pub open spec fn wf(&self) -> bool {
        fs_wf(self@.blocks, self@.next)
    }

    /// A file system on a zeroed disk, before `init`.
    pub fn new() -> (fs: Self)
        ensures
            fs@.blocks == zero_disk(),
            fs@.next == DATA_START + 1,
            fs.wf(),
    {
        proof {
            lemma_zero_disk_wf();
        }
        FileSystem { disk: Disk::new(), next_data_block: DATA_START + 1 }
    }

    /// Writes the root directory's inode: inode 0 becomes a directory whose
    /// block is `DATA_START`.
    pub fn init(&mut self)
        requires
            disk_shape(old(self)@.blocks),
        ensures
            disk_shape(final(self)@.blocks),
            final(self)@.blocks == with_inode(old(self)@.blocks, 0, root_inode()),
            final(self)@.next == old(self)@.next,
            old(self).wf() ==> final(self).wf(),
    {
        let root_inode = Inode { size: 0, block: DATA_START as u32, file_type: FILE_TYPE_DIR };
        self.write_inode(0, root_inode);
        proof {
            lemma_inode_roundtrip(root_inode);
            let d = old(self)@.blocks;
            let d2 = self@.blocks;
            if fs_wf(d, self@.next) {
                assert(d2[0] == d[0]);
                assert(d2[DATA_START as int] == d[DATA_START as int]);
                assert(forall|n: int| 1 <= n < INODE_COUNT ==> #[trigger] inode_of(d2, n) == inode_of(d, n));
            }
        }
    }

    /// Reads inode `inode_num` from its block.
    pub fn read_inode(&self, inode_num: usize) -> (inode: Inode)
        requires
            disk_shape(self@.blocks),
            inode_num < NUM_BLOCKS - INODE_START,
        ensures
            inode == inode_of(self@.blocks, inode_num as int),
    {
        let block = INODE_START + inode_num;
        let data = self.disk.read_block(block);
        Inode::decode(&data)
    }

    /// Writes `inode` into the block of inode `inode_num`, zeroing the
    /// rest of that block.
    pub fn write_inode(&mut self, inode_num: usize, inode: Inode)
        requires
            disk_shape(old(self)@.blocks),
            inode_num < NUM_BLOCKS - INODE_START,
        ensures
            disk_shape(final(self)@.blocks),
            final(self)@.blocks == with_inode(old(self)@.blocks, inode_num as int, inode),
            final(self)@.next == old(self)@.next,
    {
        let block = INODE_START + inode_num;
        let buf = inode.encode();
        self.disk.write_block(block, buf);
    }

    /// Puts the entry for `name` and `inode_num` into the first unused slot
    /// of the root directory; does nothing when every slot is used.
    pub fn add_dir_entry(&mut self, name: &str, inode_num: u32)
        requires
            disk_shape(old(self)@.blocks),
            0 <= root_dir_block(old(self)@.blocks) < NUM_BLOCKS,
        ensures
            disk_shape(final(self)@.blocks),
            final(self)@.blocks == with_entry(old(self)@.blocks, name.spec_bytes(), inode_num),
            final(self)@.next == old(self)@.next,
    {
        let root = self.read_inode(0);
        let block = root.block as usize;
        let mut data = self.disk.read_block(block);
        let entry = DirEntry::new(name, inode_num);
        let mut i: usize = 0;
        while i < DIR_ENTRIES
            invariant
                i <= DIR_ENTRIES,
                disk_shape(self@.blocks),
                self@.blocks == old(self)@.blocks,
                self@.next == old(self)@.next,
                block == root_dir_block(self@.blocks),
                block < NUM_BLOCKS,
                data@ == root_dir(self@.blocks),
                free_slot_in(data@, 0) == free_slot_in(data@, i as int),
                entry.layout() == entry_bytes(name.spec_bytes(), inode_num),
            decreases DIR_ENTRIES - i,
        {
            let existing = DirEntry::load(&data, i);
            if existing.inode == 0 {
                entry.store(&mut data, i);
                self.disk.write_block(block, data);
                return;
            }
            i = i + 1;
        }
    }

    /// The first free inode from inode 1 on, or `INODE_COUNT` when every
    /// inode is in use.
    pub(crate) fn first_free_inode(&self) -> (inode_num: usize)
        requires
            disk_shape(self@.blocks),
        ensures
            inode_num == free_inode_from(self@.blocks, 1),
    {
        let mut inode_num: usize = 1;
        while inode_num < INODE_COUNT
            invariant
                1 <= inode_num <= INODE_COUNT,
                disk_shape(self@.blocks),
                free_inode_from(self@.blocks, 1) == free_inode_from(self@.blocks, inode_num as int),
            ensures
                inode_num == free_inode_from(self@.blocks, 1),
            decreases INODE_COUNT - inode_num,
        {
            let inode = self.read_inode(inode_num);
            if inode.file_type == FILE_TYPE_FREE {
                break;
            }
            inode_num = inode_num + 1;
        }
        inode_num
    }

    /// Creates an empty file named `name`: takes the first free inode from
    /// inode 1 on and adds a directory entry for it. Answers the inode
    /// taken, or `NoFreeInodes` when there is none (the disk is then left
    /// as it was). The entry is not added when the root directory is full.
    pub fn create(&mut self, name: &str) -> (result: Result<u32, FsError>)
        requires
            disk_shape(old(self)@.blocks),
            free_inode_from(old(self)@.blocks, 1) < INODE_COUNT ==> 0 <= root_dir_block(
                old(self)@.blocks,
            ) < NUM_BLOCKS,
        ensures
            disk_shape(final(self)@.blocks),
            final(self)@.blocks == after_create(old(self)@.blocks, name.spec_bytes()),
            result == create_result(old(self)@.blocks),
            final(self)@.next == old(self)@.next,
            old(self).wf() ==> final(self).wf(),
    {
        let inode_num = self.first_free_inode();
        proof {
            lemma_free_inode(self@.blocks, 1);
        }
        if inode_num >= INODE_COUNT {
            return Err(FsError::NoFreeInodes);
        }
        let inode = Inode { size: 0, block: 0, file_type: FILE_TYPE_FILE };
        self.write_inode(inode_num, inode);
        self.add_dir_entry(name, inode_num as u32);
        proof {
            let d = old(self)@.blocks;
            lemma_inode_roundtrip(new_file_inode());
            if fs_wf(d, self@.next) {
                lemma_create_keeps_wf(d, self@.next, name.spec_bytes(), inode_num as int);
            }
        }
        Ok(inode_num as u32)
    }

    /// The inode named `name` in the root directory: the first used slot
    /// whose name is `name`.
    pub fn find_inode(&self, name: &str) -> (found: Option<u32>)
        requires
            disk_shape(self@.blocks),
            lookup_safe(self@.blocks, name.spec_bytes()),
        ensures
            found == lookup(self@.blocks, name.spec_bytes()),
    {
        match self.find_entry(name) {
            Some((_slot, inode_num)) => Some(inode_num),
            None => None,
        }
    }

    /// Writes `content` to the file `name`: its data block (or, when it
    /// has none, the next data block handed out) gets the first
    /// `BLOCK_SIZE` bytes of `content`, padded with zeros, and its inode
    /// records that length and block. `NotFound`, with nothing changed,
    /// when no entry has the name.
    pub fn write_file(&mut self, name: &str, content: &str) -> (result: Result<(), FsError>)
        requires
            disk_shape(old(self)@.blocks),
            write_safe(old(self)@.blocks, old(self)@.next, name.spec_bytes()),
        ensures
            disk_shape(final(self)@.blocks),
            match lookup(old(self)@.blocks, name.spec_bytes()) {
                None => {
                    &&& result == Err::<(), FsError>(FsError::NotFound)
                    &&& final(self)@ == old(self)@
                },
                Some(k) => {
                    &&& result == Ok::<(), FsError>(())
                    &&& final(self)@.blocks == after_write(
                        old(self)@.blocks,
                        old(self)@.next,
                        k as int,
                        content.spec_bytes(),
                    )
                    &&& final(self)@.next == next_after_write(
                        old(self)@.blocks,
                        old(self)@.next,
                        k as int,
                    )
                },
            },
            old(self).wf() ==> final(self).wf(),
    {
        let inode_num = match self.find_inode(name) {
            Some(i) => i,
            None => {
                return Err(FsError::NotFound);
            },
        };
        let mut inode = self.read_inode(inode_num as usize);
        let block = if inode.block == 0 {
            let b = self.next_data_block;
            self.next_data_block = self.next_data_block + 1;
            b
        } else {
            inode.block as usize
        };
        let mut buf = [0u8; BLOCK_SIZE];
        let bytes = content.as_bytes();
        let len: usize = if bytes.len() < BLOCK_SIZE {
            bytes.len()
        } else {
            BLOCK_SIZE
        };
        let mut i: usize = 0;
        while i < len
            invariant
                len == kept_len(bytes@),
                i <= len,
                forall|j: int| 0 <= j < i ==> buf@[j] == bytes@[j],
                forall|j: int| i <= j < BLOCK_SIZE ==> buf@[j] == 0,
            decreases len - i,
        {
            buf[i] = bytes[i];
            i = i + 1;
        }
        assert(buf@ =~= data_block(content.spec_bytes()));
        self.disk.write_block(block, buf);
        inode.size = len as u32;
        inode.block = block as u32;
        self.write_inode(inode_num as usize, inode);
        proof {
            let d = old(self)@.blocks;
            let next = old(self)@.next;
            let k = inode_num as int;
            assert(inode == written_inode(d, next, k, content.spec_bytes()));
            if fs_wf(d, next) {
                lemma_wf_lookup(d, next, name.spec_bytes());
                lemma_write_keeps_wf(d, next, k, content.spec_bytes());
            }
        }
        Ok(())
    }

    /// The text of the file `name`; `NotFound` when no entry has the name,
    /// `EmptyFile` when the file has no data block, `InvalidData` when its
    /// bytes are not UTF-8.
    pub fn read_file(&self, name: &str) -> (result: Result<String, FsError>)
        requires
            disk_shape(self@.blocks),
            read_safe(self@.blocks, name.spec_bytes()),
        ensures
            match result {
                Ok(text) => file_text(self@.blocks, name.spec_bytes()) == Ok::<Seq<char>, FsError>(
                    text@,
                ),
                Err(e) => file_text(self@.blocks, name.spec_bytes()) == Err::<Seq<char>, FsError>(
                    e,
                ),
            },
    {
        let inode_num = match self.find_inode(name) {
            Some(i) => i,
            None => {
                return Err(FsError::NotFound);
            },
        };
        let inode = self.read_inode(inode_num as usize);
        if inode.block == 0 {
            return Err(FsError::EmptyFile);
        }
        let data = self.disk.read_block(inode.block as usize);
        let size = inode.size as usize;
        let stored = vstd::slice::slice_subrange(data.as_slice(), 0, size);
        assert(stored@ == self@.blocks[inode.block as int].take(size as int));
        match utf8_text(stored) {
            Some(content) => Ok(content.to_owned()),
            None => Err(FsError::InvalidData),
        }
    }

    /// The slot of the first entry named `name` in the root directory, with
    /// its inode.
    pub(crate) fn find_entry(&self, name: &str) -> (found: Option<(usize, u32)>)
        requires
            disk_shape(self@.blocks),
            lookup_safe(self@.blocks, name.spec_bytes()),
        ensures
            match found {
                None => lookup(self@.blocks, name.spec_bytes()) is None,
                Some((slot, inode)) => {
                    &&& slot == find_slot_in(root_dir(self@.blocks), name.spec_bytes(), 0)
                    &&& slot < DIR_ENTRIES
                    &&& lookup(self@.blocks, name.spec_bytes()) == Some(inode)
                },
            },
    {
        match self.checked_lookup(name) {
            Some(found) => found,
            None => None,
        }
    }

    /// The names in the root directory, in slot order.
    pub fn list_files(&self) -> (names: Vec<Vec<u8>>)
        requires
            disk_shape(self@.blocks),
            list_safe(self@.blocks),
        ensures
            names@.len() == file_names(self@.blocks).len(),
            forall|i: int| 0 <= i < names@.len() ==> #[trigger] names@[i]@ == file_names(self@.blocks)[i],
    {
        let root = self.read_inode(0);
        let block = root.block as usize;
        let data = self.disk.read_block(block);
        let mut names: Vec<Vec<u8>> = Vec::new();
        let mut i: usize = 0;
        while i < DIR_ENTRIES
            invariant
                i <= DIR_ENTRIES,
                data@ == root_dir(self@.blocks),
                list_safe(self@.blocks),
                names@.len() == names_upto(data@, i as int).len(),
                forall|j: int| 0 <= j < names@.len() ==> #[trigger] names@[j]@ == names_upto(data@, i as int)[j],
            decreases DIR_ENTRIES - i,
        {
            let entry = DirEntry::load(&data, i);
            if entry.inode != 0 {
                assert(slot_used(root_dir(self@.blocks), i as int));
                let len = entry.name_len as usize;
                let mut name: Vec<u8> = Vec::new();
                let mut k: usize = 0;
                while k < len
                    invariant
                        len == entry.name_len,
                        len <= NAME_CAPACITY,
                        k <= len,
                        name@ == entry.name_bytes().take(k as int),
                    decreases len - k,
                {
                    name.push(entry.name[k]);
                    k = k + 1;
                    assert(name@ =~= entry.name_bytes().take(k as int));
                }
                assert(name@ =~= entry.name_bytes());
                names.push(name);
            }
            i = i + 1;
        }
        names
    }

    /// The inode named `name`, with its number; `None` when no entry has
    /// the name.
    pub fn stat(&self, name: &str) -> (info: Option<(u32, Inode)>)
        requires
            disk_shape(self@.blocks),
            inode_safe(self@.blocks, name.spec_bytes()),
        ensures
            info == stat_of(self@.blocks, name.spec_bytes()),
    {
        match self.find_inode(name) {
            Some(inode_num) => {
                let inode = self.read_inode(inode_num as usize);
                Some((inode_num, inode))
            },
            None => None,
        }
    }

    /// The slot of the first entry named `name`, with its inode, when the
    /// root directory can be read and searched for `name`; `None` when it
    /// cannot.
    pub(crate) fn checked_lookup(&self, name: &str) -> (found: Option<Option<(usize, u32)>>)
        requires
            disk_shape(self@.blocks),
        ensures
            found is Some <==> lookup_safe(self@.blocks, name.spec_bytes()),
            found matches Some(f) ==> match f {
                None => lookup(self@.blocks, name.spec_bytes()) is None,
                Some((slot, inode)) => {
                    &&& slot == find_slot_in(root_dir(self@.blocks), name.spec_bytes(), 0)
                    &&& slot < DIR_ENTRIES
                    &&& lookup(self@.blocks, name.spec_bytes()) == Some(inode)
                },
            },
    {
        let root = self.read_inode(0);
        if root.block as usize >= NUM_BLOCKS {
            return None;
        }
        let data = self.disk.read_block(root.block as usize);
        let bytes = name.as_bytes();
        proof {
            lemma_find_slot(data@, bytes@, 0);
        }
        let mut i: usize = 0;
        while i < DIR_ENTRIES
            invariant
                i <= DIR_ENTRIES,
                data@ == root_dir(self@.blocks),
                bytes@ == name.spec_bytes(),
                0 <= root_dir_block(self@.blocks) < NUM_BLOCKS,
                search_safe(data@, bytes@, 0) == search_safe(data@, bytes@, i as int),
                find_in(data@, bytes@, 0) == find_in(data@, bytes@, i as int),
                find_slot_in(data@, bytes@, 0) == find_slot_in(data@, bytes@, i as int),
            decreases DIR_ENTRIES - i,
        {
            let entry = DirEntry::load(&data, i);
            if entry.inode != 0 {
                if entry.name_len as usize > NAME_CAPACITY {
                    return None;
                }
                if entry.name_is(bytes) {
                    assert(search_safe(data@, bytes@, i as int));
                    return Some(Some((i, entry.inode)));
                }
            }
            i = i + 1;
        }
        Some(None)
    }

    /// Whether the disk has the shape of `NUM_BLOCKS` blocks of
    /// `BLOCK_SIZE` bytes.
    pub(crate) fn disk_is_well_formed(&self) -> (ok: bool)
        ensures
            ok == disk_shape(self@.blocks),
    {
        self.disk.is_well_formed()
    }

    /// Whether the root directory's block is on the disk.
    pub(crate) fn root_dir_is_readable(&self) -> (ok: bool)
        requires
            disk_shape(self@.blocks),
        ensures
            ok == (0 <= root_dir_block(self@.blocks) < NUM_BLOCKS),
    {
        let root = self.read_inode(0);
        (root.block as usize) < NUM_BLOCKS
    }

    /// Whether the names in the root directory can be listed.
    pub(crate) fn listing_is_safe(&self) -> (ok: bool)
        requires
            disk_shape(self@.blocks),
        ensures
            ok == list_safe(self@.blocks),
    {
        let root = self.read_inode(0);
        if root.block as usize >= NUM_BLOCKS {
            return false;
        }
        let data = self.disk.read_block(root.block as usize);
        let mut i: usize = 0;
        while i < DIR_ENTRIES
            invariant
                i <= DIR_ENTRIES,
                data@ == root_dir(self@.blocks),
                forall|j: int|
                    0 <= j < i && #[trigger] slot_used(data@, j) ==> slot_name_len(data@, j)
                        <= NAME_CAPACITY,
            decreases DIR_ENTRIES - i,
        {
            let entry = DirEntry::load(&data, i);
            if entry.inode != 0 && entry.name_len as usize > NAME_CAPACITY {
                assert(slot_used(data@, i as int));
                return false;
            }
            i = i + 1;
        }
        true
    }

    /// Whether the file `name` can be read.
    pub(crate) fn read_is_safe(&self, name: &str) -> (ok: bool)
        requires
            disk_shape(self@.blocks),
        ensures
            ok == read_safe(self@.blocks, name.spec_bytes()),
    {
        match self.checked_lookup(name) {
            None => false,
            Some(None) => true,
            Some(Some((_slot, inode_num))) => {
                if inode_num as usize >= NUM_BLOCKS - INODE_START {
                    return false;
                }
                let inode = self.read_inode(inode_num as usize);
                inode.block == 0 || ((inode.block as usize) < NUM_BLOCKS && inode.size as usize
                    <= BLOCK_SIZE)
            },
        }
    }

    /// Whether the inode of the file `name` can be read and written.
    pub(crate) fn inode_is_safe(&self, name: &str) -> (ok: bool)
        requires
            disk_shape(self@.blocks),
        ensures
            ok == inode_safe(self@.blocks, name.spec_bytes()),
    {
        match self.checked_lookup(name) {
            None => false,
            Some(None) => true,
            Some(Some((_slot, inode_num))) => (inode_num as usize) < NUM_BLOCKS - INODE_START,
        }
    }

    /// Whether writing to the file `name` stays on the disk: no entry has
    /// the name, or its file has a data block on the disk, or a data block
    /// is left to hand out.
    pub fn has_room_to_write(&self, name: &str) -> (room: bool)
        requires
            disk_shape(self@.blocks),
        ensures
            room == write_safe(self@.blocks, self@.next, name.spec_bytes()),
    {
        match self.checked_lookup(name) {
            None => false,
            Some(None) => true,
            Some(Some((_slot, inode_num))) => {
                if inode_num as usize >= NUM_BLOCKS - INODE_START {
                    return false;
                }
                let inode = self.read_inode(inode_num as usize);
                if inode.block == 0 {
                    self.next_data_block < NUM_BLOCKS
                } else {
                    (inode.block as usize) < NUM_BLOCKS
                }
            },
        }
    }

    /// Whether the file system's invariant holds.
    pub fn is_well_formed(&self) -> (ok: bool)
        ensures
            ok == self.wf(),
    {
        if !self.disk.is_well_formed() {
            return false;
        }
        let next = self.next_data_block;
        if !(DATA_START < next && next <= NUM_BLOCKS) {
            return false;
        }
        let root = self.read_inode(0);
        if !(root.block == 0 || root.block as usize == DATA_START) {
            return false;
        }
        if !dir_block_is_sound(&self.disk.read_block(0)) {
            return false;
        }
        if !dir_block_is_sound(&self.disk.read_block(DATA_START)) {
            return false;
        }
        let ghost d = self@.blocks;
        let mut inodes: Vec<Inode> = Vec::new();
        let mut n: usize = 1;
        while n < INODE_COUNT
            invariant
                disk_shape(d),
                d == self@.blocks,
                next == self@.next,
                1 <= n <= INODE_COUNT,
                inodes@.len() == n - 1,
                forall|j: int| 1 <= j < n ==> inodes@[j - 1] == inode_of(d, j),
                forall|j: int| 1 <= j < n ==> inode_sound(#[trigger] inode_of(d, j), next as int),
            decreases INODE_COUNT - n,
        {
            let inode = self.read_inode(n);
            if !(inode.size as usize <= BLOCK_SIZE && (inode.block == 0 || (DATA_START
                < inode.block as usize && (inode.block as usize) < next))) {
                return false;
            }
            inodes.push(inode);
            n = n + 1;
        }
        let mut i: usize = 0;
        while i < inodes.len()
            invariant
                d == self@.blocks,
                inodes@.len() == INODE_COUNT - 1,
                forall|j: int| 1 <= j < INODE_COUNT ==> inodes@[j - 1] == inode_of(d, j),
                i <= inodes@.len(),
                forall|a: int, b: int|
                    0 <= a < i && 0 <= b < inodes@.len() && a != b && inodes@[a].block != 0
                        ==> inodes@[a].block != inodes@[b].block,
            decreases inodes@.len() - i,
        {
            let mut j: usize = 0;
            while j < inodes.len()
                invariant
                    d == self@.blocks,
                    inodes@.len() == INODE_COUNT - 1,
                    forall|k: int| 1 <= k < INODE_COUNT ==> inodes@[k - 1] == inode_of(d, k),
                    i < inodes@.len(),
                    j <= inodes@.len(),
                    forall|a: int, b: int|
                        0 <= a < i && 0 <= b < inodes@.len() && a != b && inodes@[a].block != 0
                            ==> inodes@[a].block != inodes@[b].block,
                    forall|b: int|
                        0 <= b < j && i != b && inodes@[i as int].block != 0
                            ==> inodes@[i as int].block != inodes@[b].block,
                decreases inodes@.len() - j,
            {
                if i != j && inodes[i].block != 0 && inodes[i].block == inodes[j].block {
                    proof {
                        let a = i as int + 1;
                        let b = j as int + 1;
                        assert(inodes@[a - 1] == inode_of(d, a));
                        assert(inodes@[b - 1] == inode_of(d, b));
                        assert(inode_of(d, a).block == inode_of(d, b).block);
                    }
                    return false;
                }
                j = j + 1;
            }
            i = i + 1;
        }
        proof {
            assert forall|a: int, b: int|
                1 <= a < INODE_COUNT && 1 <= b < INODE_COUNT && a != b && #[trigger] inode_of(
                    d,
                    a,
                ).block != 0 implies inode_of(d, a).block != #[trigger] inode_of(d, b).block by {
                assert(inodes@[a - 1] == inode_of(d, a));
                assert(inodes@[b - 1] == inode_of(d, b));
            }
        }
        true
    }

    /// Deletes the file `name`: its first directory entry is made unused
    /// and the inode it named is cleared.
    /// `NotFound`, with nothing changed, when no entry has the name.
    pub fn delete(&mut self, name: &str) -> (result: Result<(), FsError>)
        requires
            disk_shape(old(self)@.blocks),
            inode_safe(old(self)@.blocks, name.spec_bytes()),
        ensures
            disk_shape(final(self)@.blocks),
            final(self)@.blocks == after_delete(old(self)@.blocks, name.spec_bytes()),
            final(self)@.next == old(self)@.next,
            result is Ok <==> lookup(old(self)@.blocks, name.spec_bytes()) is Some,
            result is Err ==> result == Err::<(), FsError>(FsError::NotFound),
            old(self).wf() ==> final(self).wf(),
    {
        match self.find_entry(name) {
            Some((slot, inode_num)) => {
                let root = self.read_inode(0);
                let block = root.block as usize;
                let mut data = self.disk.read_block(block);
                let empty = DirEntry { inode: 0, name_len: 0, name: [0u8; NAME_CAPACITY] };
                assert(empty.layout() =~= empty_entry());
                empty.store(&mut data, slot);
                self.disk.write_block(block, data);
                proof {
                    let d = old(self)@.blocks;
                    assert(self@.blocks == without_slot(d, slot as int));
                }
                self.write_inode(inode_num as usize, Inode::default());
                proof {
                    let d = old(self)@.blocks;
                    if fs_wf(d, old(self)@.next) {
                        lemma_wf_lookup(d, old(self)@.next, name.spec_bytes());
                        lemma_clear_slot_keeps_wf(d, old(self)@.next, slot as int);
                        lemma_delete_keeps_wf(
                            without_slot(d, slot as int),
                            old(self)@.next,
                            inode_num as int,
                        );
                    }
                }
                Ok(())
            },
            None => Err(FsError::NotFound),
        }
    }
}

/// Whether every slot of directory block `block` is sound.
fn dir_block_is_sound(block: &[u8; BLOCK_SIZE]) -> (ok: bool)
    ensures
        ok == dir_sound(block@),
{
    let mut i: usize = 0;
    while i < DIR_ENTRIES
        invariant
            i <= DIR_ENTRIES,
            forall|j: int| 0 <= j < i ==> #[trigger] slot_sound(block@, j),
        decreases DIR_ENTRIES - i,
    {
        let entry = DirEntry::load(block, i);
        if entry.inode != 0 && !((entry.inode as usize) < INODE_COUNT && (entry.name_len as usize)
            <= NAME_CAPACITY) {
            assert(!slot_sound(block@, i as int));
            return false;
        }
        i = i + 1;
    }
    true
}

/// Writing a file keeps the invariant.
proof fn lemma_write_keeps_wf(d: Seq<Seq<u8>>, next: int, k: int, content: Seq<u8>)
    requires
        fs_wf(d, next),
        1 <= k < INODE_COUNT,
        target_block(d, next, k) < NUM_BLOCKS,
    ensures
        fs_wf(after_write(d, next, k, content), next_after_write(d, next, k)),
{
    let b = target_block(d, next, k);
    let next2 = next_after_write(d, next, k);
    assert(inode_sound(inode_of(d, k), next));
    let d2 = after_write(d, next, k, content);
    let w = written_inode(d, next, k, content);
    lemma_inode_roundtrip(w);
    assert(inode_of(d2, k) == w);
    assert(d2[0] == d[0]);
    assert(d2[DATA_START as int] == d[DATA_START as int]);
    assert(inode_of(d2, 0) == inode_of(d, 0));
    assert forall|n: int| 1 <= n < INODE_COUNT && n != k implies #[trigger] inode_of(d2, n) == inode_of(d, n) by {
        assert(d2[INODE_START + n] == d[INODE_START + n]);
    }
    assert forall|n: int| 1 <= n < INODE_COUNT implies inode_sound(#[trigger] inode_of(d2, n), next2) by {
        if n != k {
            assert(inode_sound(inode_of(d, n), next));
        }
    }
    assert forall|n: int, m: int|
        1 <= n < INODE_COUNT && 1 <= m < INODE_COUNT && n != m && #[trigger] inode_of(d2, n).block
            != 0 implies inode_of(d2, n).block != #[trigger] inode_of(d2, m).block by {
        if n == k {
            assert(inode_sound(inode_of(d, m), next));
            if inode_of(d, k).block != 0 {
                assert(inode_of(d, k).block != inode_of(d, m).block);
            }
        } else if m == k {
            assert(inode_sound(inode_of(d, n), next));
            if inode_of(d, k).block != 0 {
                assert(inode_of(d, n).block != inode_of(d, k).block);
            }
        } else {
            assert(inode_of(d, n).block != inode_of(d, m).block);
        }
    }
}

/// Making a slot of the root directory unused keeps the invariant and
/// every inode.
proof fn lemma_clear_slot_keeps_wf(d: Seq<Seq<u8>>, next: int, s: int)
    requires
        fs_wf(d, next),
        0 <= s < DIR_ENTRIES,
    ensures
        fs_wf(without_slot(d, s), next),
        forall|n: int| 0 <= n < INODE_COUNT ==> #[trigger] inode_of(without_slot(d, s), n) == inode_of(d, n),
{
    let d1 = without_slot(d, s);
    lemma_put_slot_sound(root_dir(d), s, Seq::<u8>::empty(), 0);
    assert forall|n: int| 0 <= n < INODE_COUNT implies #[trigger] inode_of(d1, n) == inode_of(d, n) by {
        assert(d1[INODE_START + n] == d[INODE_START + n]);
    }
    assert(dir_sound(d1[0]));
    assert(dir_sound(d1[DATA_START as int]));
}

/// Clearing a file's inode keeps the invariant.
proof fn lemma_delete_keeps_wf(d: Seq<Seq<u8>>, next: int, k: int)
    requires
        fs_wf(d, next),
        1 <= k < INODE_COUNT,
    ensures
        fs_wf(with_inode(d, k, Inode::spec_default()), next),
{
    let d2 = with_inode(d, k, Inode::spec_default());
    lemma_inode_roundtrip(Inode::spec_default());
    assert(d2[0] == d[0]);
    assert(d2[DATA_START as int] == d[DATA_START as int]);
    assert(inode_of(d2, 0) == inode_of(d, 0));
    assert forall|n: int| 1 <= n < INODE_COUNT && n != k implies #[trigger] inode_of(d2, n) == inode_of(d, n) by {
        assert(d2[INODE_START + n] == d[INODE_START + n]);
    }
    assert forall|n: int| 1 <= n < INODE_COUNT implies inode_sound(#[trigger] inode_of(d2, n), next) by {
        if n != k {
            assert(inode_sound(inode_of(d, n), next));
        }
    }
    assert forall|n: int, m: int|
        1 <= n < INODE_COUNT && 1 <= m < INODE_COUNT && n != m && #[trigger] inode_of(d2, n).block
            != 0 implies inode_of(d2, n).block != #[trigger] inode_of(d2, m).block by {
        if m != k {
            assert(inode_of(d, n).block != inode_of(d, m).block);
        }
    }
}

/// Creating a file keeps the invariant.
proof fn lemma_create_keeps_wf(d: Seq<Seq<u8>>, next: int, name: Seq<u8>, k: int)
    requires
        fs_wf(d, next),
        1 <= k < INODE_COUNT,
    ensures
        fs_wf(with_entry(with_inode(d, k, new_file_inode()), name, k as u32), next),
{
    lemma_inode_roundtrip(new_file_inode());
    let d1 = with_inode(d, k, new_file_inode());
    assert(inode_of(d1, 0) == inode_of(d, 0));
    assert(d1[0] == d[0]);
    assert(d1[DATA_START as int] == d[DATA_START as int]);
    assert forall|n: int| 1 <= n < INODE_COUNT implies inode_sound(#[trigger] inode_of(d1, n), next) by {
        if n != k {
            assert(inode_of(d1, n) == inode_of(d, n));
        }
    }
    assert forall|n: int, m: int|
        1 <= n < INODE_COUNT && 1 <= m < INODE_COUNT && n != m && #[trigger] inode_of(d1, n).block
            != 0 implies inode_of(d1, n).block != #[trigger] inode_of(d1, m).block by {
        assert(n != k);
        assert(inode_of(d1, n) == inode_of(d, n));
        if m != k {
            assert(inode_of(d1, m) == inode_of(d, m));
        }
    }
    assert(fs_wf(d1, next));
    let s = free_slot_in(root_dir(d1), 0);
    lemma_free_slot(root_dir(d1), 0);
    if s < DIR_ENTRIES {
        lemma_put_slot_sound(root_dir(d1), s, name, k as u32);
        let d2 = with_entry(d1, name, k as u32);
        assert(inode_of(d2, 0) == inode_of(d1, 0));
        assert forall|n: int| 1 <= n < INODE_COUNT implies #[trigger] inode_of(d2, n) == inode_of(d1, n) by {
        }
        assert(dir_sound(d2[0]));
        assert(dir_sound(d2[DATA_START as int]));
    }
}

} // verus!
