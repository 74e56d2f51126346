use vstd::prelude::*;
use vstd::utf8::encode_utf8;
use crate::file_system::block::{disk_shape, BLOCK_SIZE, NUM_BLOCKS};
use crate::file_system::dir::{
    entry_bytes, lemma_put_slot, put_slot, slot_inode, slot_name, slot_name_len, slot_used,
    stored_name_len, DIR_ENTRIES, NAME_CAPACITY,
};
use crate::file_system::fs::{
    stat_of,    next_after_write, DATA_START,
    after_create, after_delete, after_write, create_result, data_block, dir_sound, empty_entry,
    file_bytes, file_names, find_slot_in, lemma_find_slot, names_upto, without_slot,
    file_text, find_in, free_slot_in, fs_wf, inode_of, inode_safe, inode_sound,
    lemma_free_inode, lemma_free_slot, lemma_wf_lookup, list_safe,
    lookup, lookup_safe, new_file_inode, search_safe, read_safe, root_dir, root_dir_block, slot_sound,
    target_block, with_entry, with_inode, write_safe, written_inode, FsError, INODE_COUNT,
    INODE_START,
};
use crate::file_system::inode::{lemma_inode_roundtrip, Inode, FILE_TYPE_FILE};

verus! {

broadcast use {vstd::utf8::encode_utf8_valid_utf8, vstd::utf8::encode_utf8_decode_utf8};

/// Reading an inode gives back what was last written to it, and writing
/// one inode leaves every other inode as it was.
pub proof fn law_inode_read_after_write(d: Seq<Seq<u8>>, n: int, m: int, inode: Inode)
    requires
        disk_shape(d),
        0 <= n < NUM_BLOCKS - INODE_START,
        0 <= m < NUM_BLOCKS - INODE_START,
    ensures
        inode_of(with_inode(d, n, inode), n) == inode,
        m != n ==> inode_of(with_inode(d, n, inode), m) == inode_of(d, m),
{
    lemma_inode_roundtrip(inode);
}

/// In a well-formed file system no operation reads or writes outside the
/// disk: looking up, reading, listing, stating and deleting are always
/// safe, and writing is safe while a data block is left to hand out.
pub proof fn law_wf_operations_safe(d: Seq<Seq<u8>>, next: int, name: Seq<u8>)
    requires
        fs_wf(d, next),
    ensures
        lookup_safe(d, name),
        read_safe(d, name),
        inode_safe(d, name),
        list_safe(d),
        next < NUM_BLOCKS ==> write_safe(d, next, name),
{
    lemma_wf_lookup(d, next, name);
    if let Some(k) = lookup(d, name) {
        assert(inode_sound(inode_of(d, k as int), next));
    }
    assert forall|i: int|
        0 <= i < DIR_ENTRIES && #[trigger] slot_used(root_dir(d), i) implies slot_name_len(
        root_dir(d),
        i,
    ) <= NAME_CAPACITY by {
        assert(slot_sound(root_dir(d), i));
    }
}

/// Searching a directory block with one slot replaced by a new entry for
/// `name` (a name short enough to be kept whole), where that slot is the
/// first unused one and the search for `name` from slot `i` on meets no
/// overlong name: the search finds the name, still meets no overlong name,
/// and finds the new entry's inode when no slot from `i` on had the name.
proof fn lemma_find_after_put(b: Seq<u8>, s: int, name: Seq<u8>, k: u32, i: int)
    requires
        b.len() == BLOCK_SIZE,
        search_safe(b, name, i),
        0 <= i <= s < DIR_ENTRIES,
        s == free_slot_in(b, 0),
        name.len() <= NAME_CAPACITY,
        k != 0,
    ensures
        find_in(put_slot(b, s, entry_bytes(name, k)), name, i) is Some,
        search_safe(put_slot(b, s, entry_bytes(name, k)), name, i),
        find_in(b, name, i) is None ==> find_in(put_slot(b, s, entry_bytes(name, k)), name, i)
            == Some(k),
    decreases s - i,
{
    let p = put_slot(b, s, entry_bytes(name, k));
    lemma_put_slot(b, s, name, k);
    lemma_free_slot(b, 0);
    assert(name.take(stored_name_len(name) as int) =~= name);
    if i < s {
        assert(slot_used(b, i));
        assert(slot_inode(p, i) == slot_inode(b, i));
        assert(slot_name(p, i) == slot_name(b, i));
        if slot_name(b, i) != name {
            lemma_find_after_put(b, s, name, k, i + 1);
        }
    }
}

/// Adding the directory entry for a name that fits an entry and that no
/// entry has yet, with an inode other than 0, to a root directory with an
/// unused slot: looking the name up then finds that inode. (When the root
/// directory lives in the block of inode 0 and the unused slot is its
/// first, the entry overwrites inode 0; that case is left out.)
pub proof fn law_lookup_after_add_entry(d: Seq<Seq<u8>>, name: Seq<u8>, inode: u32)
    requires
        disk_shape(d),
        lookup_safe(d, name),
        lookup(d, name) is None,
        name.len() <= NAME_CAPACITY,
        inode != 0,
        free_slot_in(root_dir(d), 0) < DIR_ENTRIES,
        root_dir_block(d) == INODE_START ==> free_slot_in(root_dir(d), 0) > 0,
    ensures
        lookup_safe(with_entry(d, name, inode), name),
        lookup(with_entry(d, name, inode), name) == Some(inode),
{
    let b = root_dir(d);
    let s = free_slot_in(b, 0);
    lemma_free_slot(b, 0);
    let p = put_slot(b, s, entry_bytes(name, inode));
    let d2 = with_entry(d, name, inode);
    assert(d2 == d.update(root_dir_block(d), p));
    if root_dir_block(d) == INODE_START {
        assert forall|j: int| 0 <= j < 9 implies p[j] == b[j] by {}
    }
    assert(inode_of(d2, 0) == inode_of(d, 0));
    assert(root_dir(d2) == p);
    lemma_find_after_put(b, s, name, inode, 0);
}

/// After a file is created under a name that fits a directory entry, in a
/// root directory with an unused slot, looking the name up finds a file;
/// when no file had that name before, it finds the new file's inode.
pub proof fn law_lookup_after_create(d: Seq<Seq<u8>>, next: int, name: Seq<u8>)
    requires
        fs_wf(d, next),
        name.len() <= NAME_CAPACITY,
        free_slot_in(root_dir(d), 0) < DIR_ENTRIES,
        create_result(d) is Ok,
    ensures
        lookup(after_create(d, name), name) is Some,
        lookup(d, name) is None ==> lookup(after_create(d, name), name) == Some(
            create_result(d)->Ok_0,
        ),
{
    let k = crate::file_system::fs::free_inode_from(d, 1);
    lemma_free_inode(d, 1);
    let d1 = with_inode(d, k, new_file_inode());
    assert(inode_of(d1, 0) == inode_of(d, 0));
    assert(root_dir(d1) == root_dir(d));
    let b = root_dir(d);
    let s = free_slot_in(b, 0);
    lemma_free_slot(b, 0);
    let d2 = after_create(d, name);
    lemma_wf_lookup(d, next, name);
    assert(d2 == d1.update(root_dir_block(d1), put_slot(b, s, entry_bytes(name, k as u32))));
    assert(inode_of(d2, 0) == inode_of(d1, 0));
    assert(root_dir(d2) == put_slot(b, s, entry_bytes(name, k as u32)));
    lemma_find_after_put(b, s, name, k as u32, 0);
}

/// Writing a file leaves the root directory, and so every lookup, as it
/// was.
proof fn lemma_write_keeps_lookup(d: Seq<Seq<u8>>, next: int, k: int, content: Seq<u8>)
    requires
        fs_wf(d, next),
        1 <= k < INODE_COUNT,
        target_block(d, next, k) < NUM_BLOCKS,
    ensures
        inode_of(after_write(d, next, k, content), 0) == inode_of(d, 0),
        root_dir(after_write(d, next, k, content)) == root_dir(d),
        forall|name: Seq<u8>| lookup(after_write(d, next, k, content), name) == lookup(d, name),
{
    assert(inode_sound(inode_of(d, k), next));
    let d2 = after_write(d, next, k, content);
    assert(inode_of(d2, 0) == inode_of(d, 0));
    assert(root_dir(d2) == root_dir(d));
}

/// After `content` is written to the file `name`, whose inode is `k`,
/// reading the file gives `content` back, as long as its encoding fits one
/// block, the root directory and the block written are blocks of the disk
/// (the latter other than block 0), and
/// the write overwrites neither the root directory nor inode 0 nor the
/// data it has just written. (Those left out are the disks on which the
/// write itself clobbers the file's entry, its inode or its data.)
pub proof fn law_read_after_write(
    d: Seq<Seq<u8>>,
    next: int,
    name: Seq<u8>,
    k: int,
    content: Seq<char>,
)
    requires
        disk_shape(d),
        lookup(d, name) == Some(k as u32),
        0 < k < NUM_BLOCKS - INODE_START,
        0 <= root_dir_block(d) < NUM_BLOCKS,
        0 < target_block(d, next, k) < NUM_BLOCKS,
        target_block(d, next, k) != root_dir_block(d),
        target_block(d, next, k) != INODE_START,
        target_block(d, next, k) != INODE_START + k,
        INODE_START + k != root_dir_block(d),
        encode_utf8(content).len() <= BLOCK_SIZE,
    ensures
        file_text(after_write(d, next, k, encode_utf8(content)), name) == Ok::<
            Seq<char>,
            FsError,
        >(content),
{
    let bytes = encode_utf8(content);
    let t = target_block(d, next, k);
    let d2 = after_write(d, next, k, bytes);
    let w = written_inode(d, next, k, bytes);
    lemma_inode_roundtrip(w);
    assert(d2[INODE_START as int] == d[INODE_START as int]);
    assert(inode_of(d2, 0) == inode_of(d, 0));
    assert(root_dir(d2) == root_dir(d));
    assert(lookup(d2, name) == Some(k as u32));
    assert(inode_of(d2, k) == w);
    assert(d2[t] == data_block(bytes));
    assert(data_block(bytes).take(w.size as int) =~= bytes);
    assert(file_bytes(d2, name) == Ok::<Seq<u8>, FsError>(bytes));
}

/// In a well-formed file system, after `content` is written to a file,
/// reading the file gives `content` back, as long as its encoding fits one
/// block and a data block is left to hand out.
pub proof fn law_wf_read_after_write(d: Seq<Seq<u8>>, next: int, name: Seq<u8>, content: Seq<char>)
    requires
        fs_wf(d, next),
        lookup(d, name) is Some,
        encode_utf8(content).len() <= BLOCK_SIZE,
        target_block(d, next, lookup(d, name)->Some_0 as int) < NUM_BLOCKS,
    ensures
        file_text(after_write(d, next, lookup(d, name)->Some_0 as int, encode_utf8(content)), name)
            == Ok::<Seq<char>, FsError>(content),
{
    let k = lookup(d, name)->Some_0 as int;
    lemma_wf_lookup(d, next, name);
    assert(inode_sound(inode_of(d, k), next));
    law_read_after_write(d, next, name, k, content);
}

/// The file inodes' data blocks: none, or a block after the root
/// directory's and before `next`, the next data block to hand out (itself
/// after the root directory's); and no two file inodes share one.
pub open spec fn data_blocks_fresh(d: Seq<Seq<u8>>, next: int) -> bool {
    &&& DATA_START < next
    &&& forall|n: int|
        1 <= n < INODE_COUNT ==> #[trigger] inode_of(d, n).block == 0 || (DATA_START
            < inode_of(d, n).block < next)
    &&& forall|n: int, m: int|
        1 <= n < INODE_COUNT && 1 <= m < INODE_COUNT && n != m && #[trigger] inode_of(d, n).block
            != 0 ==> inode_of(d, n).block != #[trigger] inode_of(d, m).block
}

/// Writing a file keeps the data blocks fresh and never hands a block out
/// twice: the next block to hand out does not go back, and a block newly
/// given to the file is after the root directory's and is no other file
/// inode's. (Left out: a directory entry naming no file inode whose own
/// block field names a file inode's block, which the write then clobbers.)
pub proof fn law_write_keeps_data_blocks_fresh(
    d: Seq<Seq<u8>>,
    next: int,
    name: Seq<u8>,
    k: int,
    content: Seq<u8>,
)
    requires
        disk_shape(d),
        data_blocks_fresh(d, next),
        lookup(d, name) == Some(k as u32),
        0 <= k < NUM_BLOCKS - INODE_START,
        0 <= target_block(d, next, k) < NUM_BLOCKS,
        !(1 <= k < INODE_COUNT) ==> !(INODE_START + 1 <= target_block(d, next, k) < INODE_START
            + INODE_COUNT),
    ensures
        data_blocks_fresh(after_write(d, next, k, content), next_after_write(d, next, k)),
        next_after_write(d, next, k) >= next,
        inode_of(d, k).block == 0 ==> {
            &&& DATA_START < target_block(d, next, k)
            &&& forall|n: int|
                1 <= n < INODE_COUNT && n != k ==> #[trigger] inode_of(d, n).block
                    != target_block(d, next, k)
        },
{
    let t = target_block(d, next, k);
    let next2 = next_after_write(d, next, k);
    let d2 = after_write(d, next, k, content);
    let w = written_inode(d, next, k, content);
    lemma_inode_roundtrip(w);
    assert(inode_of(d2, k) == w);
    assert forall|n: int| 1 <= n < INODE_COUNT && n != k implies #[trigger] inode_of(d2, n)
        == inode_of(d, n) by {
        assert(d2[INODE_START + n] == d[INODE_START + n]);
    }
    if 1 <= k < INODE_COUNT {
        assert forall|n: int, m: int|
            1 <= n < INODE_COUNT && 1 <= m < INODE_COUNT && n != m && #[trigger] inode_of(
                d2,
                n,
            ).block != 0 implies inode_of(d2, n).block != #[trigger] inode_of(d2, m).block by {
            if n == k {
                if inode_of(d, k).block != 0 {
                    assert(inode_of(d, k).block != inode_of(d, m).block);
                }
            } else if m == k {
                if inode_of(d, k).block != 0 {
                    assert(inode_of(d, n).block != inode_of(d, k).block);
                }
            } else {
                assert(inode_of(d, n).block != inode_of(d, m).block);
            }
        }
    } else {
        assert forall|n: int, m: int|
            1 <= n < INODE_COUNT && 1 <= m < INODE_COUNT && n != m && #[trigger] inode_of(
                d2,
                n,
            ).block != 0 implies inode_of(d2, n).block != #[trigger] inode_of(d2, m).block by {
            assert(inode_of(d, n).block != inode_of(d, m).block);
        }
    }
}

/// Clearing slot `s`, the first slot named `name`, leaves the search for
/// `name` to the slots after `s`.
proof fn lemma_find_after_clear(b: Seq<u8>, s: int, name: Seq<u8>, i: int)
    requires
        b.len() == BLOCK_SIZE,
        dir_sound(b),
        0 <= s < DIR_ENTRIES,
        s == find_slot_in(b, name, 0),
        0 <= i <= DIR_ENTRIES,
    ensures
        find_in(put_slot(b, s, empty_entry()), name, i) == if i <= s {
            find_in(b, name, s + 1)
        } else {
            find_in(b, name, i)
        },
    decreases DIR_ENTRIES - i,
{
    let p = put_slot(b, s, empty_entry());
    lemma_put_slot(b, s, Seq::<u8>::empty(), 0);
    lemma_find_slot(b, name, 0);
    if i < DIR_ENTRIES {
        lemma_find_after_clear(b, s, name, i + 1);
        if i != s {
            assert(slot_sound(b, i));
            assert(slot_inode(p, i) == slot_inode(b, i));
            if slot_used(b, i) {
                assert(slot_name(p, i) == slot_name(b, i));
            }
        }
    }
}

/// Clearing a used slot drops exactly one name from the listing.
proof fn lemma_names_after_clear(b: Seq<u8>, s: int, i: int)
    requires
        b.len() == BLOCK_SIZE,
        0 <= s < DIR_ENTRIES,
        slot_used(b, s),
        0 <= i <= DIR_ENTRIES,
    ensures
        names_upto(put_slot(b, s, empty_entry()), i).len() + (if i > s {
            1int
        } else {
            0int
        }) == names_upto(b, i).len(),
    decreases i,
{
    let p = put_slot(b, s, empty_entry());
    lemma_put_slot(b, s, Seq::<u8>::empty(), 0);
    if i > 0 {
        lemma_names_after_clear(b, s, i - 1);
        if i - 1 != s {
            assert(slot_inode(p, i - 1) == slot_inode(b, i - 1));
        }
    }
}

/// Deleting a file makes its name's first entry unused: looking the name
/// up goes on to the entries after it, so a name held by one entry is no
/// longer found nor read, and the listing is one name shorter.
pub proof fn law_lookup_after_delete(d: Seq<Seq<u8>>, next: int, name: Seq<u8>)
    requires
        fs_wf(d, next),
        lookup(d, name) is Some,
    ensures
        lookup(after_delete(d, name), name) == find_in(
            root_dir(d),
            name,
            find_slot_in(root_dir(d), name, 0) + 1,
        ),
        find_in(root_dir(d), name, find_slot_in(root_dir(d), name, 0) + 1) is None ==> {
            &&& lookup(after_delete(d, name), name) is None
            &&& file_text(after_delete(d, name), name) == Err::<Seq<char>, FsError>(
                FsError::NotFound,
            )
        },
        file_names(after_delete(d, name)).len() + 1 == file_names(d).len(),
{
    let b = root_dir(d);
    let s = find_slot_in(b, name, 0);
    let k = lookup(d, name)->Some_0 as int;
    lemma_wf_lookup(d, next, name);
    lemma_find_slot(b, name, 0);
    let d1 = without_slot(d, s);
    let d2 = after_delete(d, name);
    assert(d2 == with_inode(d1, k, Inode::spec_default()));
    assert(inode_of(d1, 0) == inode_of(d, 0));
    assert(inode_of(d2, 0) == inode_of(d1, 0));
    assert(root_dir(d2) == put_slot(b, s, empty_entry()));
    lemma_find_after_clear(b, s, name, 0);
    lemma_names_after_clear(b, s, DIR_ENTRIES as int);
}

/// Writing one file leaves the bytes of every file with another inode as
/// they were.
pub proof fn law_write_keeps_other_files(
    d: Seq<Seq<u8>>,
    next: int,
    name: Seq<u8>,
    other: Seq<u8>,
    content: Seq<u8>,
)
    requires
        fs_wf(d, next),
        lookup(d, name) is Some,
        target_block(d, next, lookup(d, name)->Some_0 as int) < NUM_BLOCKS,
        lookup(d, other) != lookup(d, name),
    ensures
        file_bytes(after_write(d, next, lookup(d, name)->Some_0 as int, content), other)
            == file_bytes(d, other),
{
    let k = lookup(d, name)->Some_0 as int;
    lemma_wf_lookup(d, next, name);
    lemma_wf_lookup(d, next, other);
    lemma_write_keeps_lookup(d, next, k, content);
    let d2 = after_write(d, next, k, content);
    if let Some(m) = lookup(d, other) {
        let m = m as int;
        assert(m != k);
        assert(inode_of(d2, m) == inode_of(d, m));
        assert(inode_sound(inode_of(d, m), next));
        assert(inode_sound(inode_of(d, k), next));
        if inode_of(d, m).block != 0 {
            if inode_of(d, k).block != 0 {
                assert(inode_of(d, m).block != inode_of(d, k).block);
            }
            assert(inode_of(d, m).block != target_block(d, next, k));
            assert(d2[inode_of(d, m).block as int] == d[inode_of(d, m).block as int]);
        }
    }
}

/// Stating a name finds every file that looking the name up finds, with
/// its inode as stored, whatever the file holds; and finds nothing else.
pub proof fn law_stat_finds_every_file(d: Seq<Seq<u8>>, name: Seq<u8>)
    ensures
        stat_of(d, name) is Some <==> lookup(d, name) is Some,
        lookup(d, name) matches Some(k) ==> stat_of(d, name) == Some((k, inode_of(d, k as int))),
{
}

/// A file just created under a fresh name that fits a directory entry,
/// in a root directory with an unused slot, is found by stating it: its
/// inode is the one taken, empty, with no data block, of type file.
pub proof fn law_stat_after_create(d: Seq<Seq<u8>>, next: int, name: Seq<u8>)
    requires
        fs_wf(d, next),
        name.len() <= NAME_CAPACITY,
        free_slot_in(root_dir(d), 0) < DIR_ENTRIES,
        create_result(d) is Ok,
        lookup(d, name) is None,
    ensures
        stat_of(after_create(d, name), name) == Some(
            (create_result(d)->Ok_0, Inode { size: 0, block: 0, file_type: FILE_TYPE_FILE }),
        ),
{
    law_lookup_after_create(d, next, name);
    let k = crate::file_system::fs::free_inode_from(d, 1);
    lemma_free_inode(d, 1);
    lemma_inode_roundtrip(new_file_inode());
    let d1 = with_inode(d, k, new_file_inode());
    assert(inode_of(d1, k) == new_file_inode());
    assert(inode_of(d1, 0) == inode_of(d, 0));
    let d2 = after_create(d, name);
    assert(d2[INODE_START + k] == d1[INODE_START + k]);
}

/// `x` is the whole name of a used slot among the first `n` of directory
/// block `b`.
pub open spec fn names_a_used_slot(b: Seq<u8>, x: Seq<u8>, n: int) -> bool {
    exists|i: int| 0 <= i < n && slot_used(b, i) && x == #[trigger] slot_name(b, i)
}

/// Names of the used slots among the first `n` of directory block `b`:
/// every one of them is listed whole, and every listed name is the whole
/// name of a used slot.
proof fn lemma_names_upto(b: Seq<u8>, n: int)
    requires
        0 <= n <= DIR_ENTRIES,
    ensures
        forall|i: int| 0 <= i < n && slot_used(b, i) ==> names_upto(b, n).contains(
            #[trigger] slot_name(b, i),
        ),
        forall|j: int|
            0 <= j < names_upto(b, n).len() ==> names_a_used_slot(b, #[trigger] names_upto(b, n)[j], n),
    decreases n,
{
    if n > 0 {
        lemma_names_upto(b, n - 1);
        let prev = names_upto(b, n - 1);
        assert forall|j: int| 0 <= j < prev.len() implies names_a_used_slot(b, #[trigger] prev[j], n) by {
            assert(names_a_used_slot(b, prev[j], n - 1));
            let i = choose|i: int| 0 <= i < n - 1 && slot_used(b, i) && prev[j] == #[trigger] slot_name(b, i);
            assert(0 <= i < n && slot_used(b, i) && prev[j] == slot_name(b, i));
        }
        if slot_used(b, n - 1) {
            let cur = prev.push(slot_name(b, n - 1));
            assert(names_upto(b, n) == cur);
            assert(cur[prev.len() as int] == slot_name(b, n - 1));
            assert forall|i: int| 0 <= i < n && slot_used(b, i) implies cur.contains(
                #[trigger] slot_name(b, i),
            ) by {
                if i < n - 1 {
                    let j = choose|j: int| 0 <= j < prev.len() && prev[j] == slot_name(b, i);
                    assert(cur[j] == prev[j]);
                }
            }
            assert forall|j: int| 0 <= j < cur.len() implies names_a_used_slot(b, #[trigger] cur[j], n) by {
                if j < prev.len() {
                    assert(cur[j] == prev[j]);
                } else {
                    assert(cur[j] == slot_name(b, n - 1));
                }
            }
        } else {
            assert(names_upto(b, n) == prev);
        }
    }
}

/// Listing the root directory gives the whole name of every used slot,
/// and nothing but names of used slots.
pub proof fn law_listing_holds_every_name(d: Seq<Seq<u8>>)
    ensures
        forall|i: int|
            0 <= i < DIR_ENTRIES && slot_used(root_dir(d), i) ==> file_names(d).contains(
                #[trigger] slot_name(root_dir(d), i),
            ),
        forall|j: int|
            0 <= j < file_names(d).len() ==> names_a_used_slot(
                root_dir(d),
                #[trigger] file_names(d)[j],
                DIR_ENTRIES as int,
            ),
{
    lemma_names_upto(root_dir(d), DIR_ENTRIES as int);
}

/// After a file is created under a name that fits a directory entry, in a
/// root directory with an unused slot, listing the root directory shows
/// that name, whole.
pub proof fn law_listing_after_create(d: Seq<Seq<u8>>, next: int, name: Seq<u8>)
    requires
        fs_wf(d, next),
        name.len() <= NAME_CAPACITY,
        free_slot_in(root_dir(d), 0) < DIR_ENTRIES,
        create_result(d) is Ok,
    ensures
        file_names(after_create(d, name)).contains(name),
{
    let k = crate::file_system::fs::free_inode_from(d, 1);
    lemma_free_inode(d, 1);
    let d1 = with_inode(d, k, new_file_inode());
    assert(inode_of(d1, 0) == inode_of(d, 0));
    assert(root_dir(d1) == root_dir(d));
    let b = root_dir(d);
    let s = free_slot_in(b, 0);
    lemma_free_slot(b, 0);
    let d2 = after_create(d, name);
    let p = put_slot(b, s, entry_bytes(name, k as u32));
    assert(d2 == d1.update(root_dir_block(d1), p));
    assert(inode_of(d2, 0) == inode_of(d1, 0));
    assert(root_dir(d2) == p);
    lemma_put_slot(b, s, name, k as u32);
    assert(name.take(stored_name_len(name) as int) =~= name);
    assert(slot_used(p, s));
    assert(slot_name(p, s) == name);
    law_listing_holds_every_name(d2);
}

} // verus!
