use myos::file_system::block::{Disk, BLOCK_SIZE, NUM_BLOCKS};
use myos::file_system::dir::{DirEntry, NAME_CAPACITY};
use myos::file_system::fs::{FileSystem, FsError, DATA_START, INODE_COUNT};
use myos::file_system::inode::Inode;

fn fresh() -> FileSystem {
    let mut fs = FileSystem::new();
    fs.init();
    fs
}

#[test]
fn new_disk_is_zero() {
    let disk = Disk::new();
    assert!(disk.is_well_formed());
    assert_eq!(disk.read_block(0), [0u8; BLOCK_SIZE]);
    assert_eq!(disk.read_block(NUM_BLOCKS - 1), [0u8; BLOCK_SIZE]);
}

#[test]
fn disk_read_after_write() {
    let mut disk = Disk::new();
    let mut block = [0u8; BLOCK_SIZE];
    block[0] = 7;
    block[BLOCK_SIZE - 1] = 9;
    disk.write_block(5, block);
    assert_eq!(disk.read_block(5), block);
    assert_eq!(disk.read_block(4), [0u8; BLOCK_SIZE]);
}

#[test]
fn init_writes_the_root_inode() {
    let fs = fresh();
    assert_eq!(
        fs.read_inode(0),
        Inode { size: 0, block: DATA_START as u32, file_type: 2 }
    );
    assert!(fs.is_well_formed());
}

#[test]
fn inode_read_after_write() {
    let mut fs = fresh();
    let inode = Inode { size: 0x0102_0304, block: 0xa0b0_c0d0, file_type: 7 };
    fs.write_inode(3, inode);
    assert_eq!(fs.read_inode(3), inode);
    assert_eq!(fs.read_inode(4), Inode::default());
    let bytes = fs.disk.read_block(4);
    assert_eq!(&bytes[..9], &[4, 3, 2, 1, 0xd0, 0xc0, 0xb0, 0xa0, 7]);
}

#[test]
fn inode_encoding_round_trip() {
    let inode = Inode { size: 512, block: 18, file_type: 1 };
    let bytes = inode.encode();
    assert_eq!(bytes[0], 0);
    assert_eq!(bytes[1], 2);
    assert_eq!(bytes[4], 18);
    assert_eq!(bytes[8], 1);
    assert!(bytes[9..].iter().all(|b| *b == 0));
    assert_eq!(Inode::decode(&bytes), inode);
}

#[test]
fn dir_entry_layout() {
    let entry = DirEntry::new("notes.txt", 3);
    assert_eq!(entry.inode, 3);
    assert_eq!(entry.name_len, 9);
    let mut block = [0u8; BLOCK_SIZE];
    entry.store(&mut block, 2);
    assert_eq!(&block[64..69], &[3, 0, 0, 0, 9]);
    assert_eq!(&block[69..78], b"notes.txt");
    let loaded = DirEntry::load(&block, 2);
    assert_eq!(loaded.inode, 3);
    assert!(loaded.name_is(b"notes.txt"));
    assert!(!loaded.name_is(b"notes.tx"));
    assert_eq!(DirEntry::load(&block, 1).inode, 0);
}

#[test]
fn long_names_are_cut() {
    let long = "abcdefghijklmnopqrstuvwxyz0123456789";
    let entry = DirEntry::new(long, 1);
    assert_eq!(entry.name_len as usize, NAME_CAPACITY);
    assert!(entry.name_is(&long.as_bytes()[..NAME_CAPACITY]));
}

#[test]
fn create_then_find() {
    let mut fs = fresh();
    assert_eq!(fs.create("a.txt"), Ok(1));
    assert_eq!(fs.create("b.txt"), Ok(2));
    assert_eq!(fs.find_inode("a.txt"), Some(1));
    assert_eq!(fs.find_inode("b.txt"), Some(2));
    assert_eq!(fs.find_inode("c.txt"), None);
    assert_eq!(fs.read_inode(1), Inode { size: 0, block: 0, file_type: 1 });
    assert!(fs.is_well_formed());
}

#[test]
fn create_before_init_uses_block_zero() {
    let mut fs = FileSystem::new();
    assert_eq!(fs.create("x"), Ok(1));
    assert_eq!(fs.find_inode("x"), Some(1));
    assert_eq!(DirEntry::load(&fs.disk.read_block(0), 0).inode, 1);
}

#[test]
fn create_runs_out_of_inodes() {
    let mut fs = fresh();
    for i in 1..INODE_COUNT {
        let name = format!("f{}", i);
        assert_eq!(fs.create(&name), Ok(i as u32));
    }
    assert_eq!(fs.create("one.more"), Err(FsError::NoFreeInodes));
    assert_eq!(fs.find_inode("one.more"), None);
}

#[test]
fn duplicate_names_find_the_first_entry() {
    let mut fs = fresh();
    assert_eq!(fs.create("dup"), Ok(1));
    assert_eq!(fs.create("dup"), Ok(2));
    assert_eq!(fs.find_inode("dup"), Some(1));
}

#[test]
fn long_names_cannot_be_found_again() {
    let mut fs = fresh();
    let long = "a-name-that-is-longer-than-the-field";
    assert_eq!(fs.create(long), Ok(1));
    assert_eq!(fs.find_inode(long), None);
    assert_eq!(fs.find_inode(&long[..NAME_CAPACITY]), Some(1));
}

#[test]
fn read_after_write() {
    let mut fs = fresh();
    fs.create("a").unwrap();
    assert_eq!(fs.write_file("a", "hello"), Ok(()));
    assert_eq!(fs.read_file("a"), Ok(String::from("hello")));
    assert_eq!(
        fs.stat("a"),
        Some((1, Inode { size: 5, block: DATA_START as u32 + 1, file_type: 1 }))
    );
    assert_eq!(fs.write_file("a", "héllo wörld"), Ok(()));
    assert_eq!(fs.read_file("a"), Ok(String::from("héllo wörld")));
    assert_eq!(fs.read_inode(1).block, DATA_START as u32 + 1);
    assert!(fs.is_well_formed());
}

#[test]
fn empty_content_reads_back_empty() {
    let mut fs = fresh();
    fs.create("a").unwrap();
    assert_eq!(fs.write_file("a", ""), Ok(()));
    assert_eq!(fs.read_file("a"), Ok(String::new()));
}

#[test]
fn write_keeps_other_files() {
    let mut fs = fresh();
    fs.create("a").unwrap();
    fs.create("b").unwrap();
    fs.write_file("a", "first").unwrap();
    fs.write_file("b", "second").unwrap();
    fs.write_file("a", "third").unwrap();
    assert_eq!(fs.read_file("a"), Ok(String::from("third")));
    assert_eq!(fs.read_file("b"), Ok(String::from("second")));
    assert_eq!(fs.read_inode(2).block, DATA_START as u32 + 2);
}

#[test]
fn content_is_cut_to_one_block() {
    let mut fs = fresh();
    fs.create("big").unwrap();
    let content: String = std::iter::repeat('z').take(BLOCK_SIZE + 100).collect();
    fs.write_file("big", &content).unwrap();
    assert_eq!(fs.read_file("big"), Ok(content[..BLOCK_SIZE].to_string()));
    assert_eq!(fs.read_inode(1).size as usize, BLOCK_SIZE);
}

#[test]
fn a_cut_character_is_invalid_data() {
    let mut fs = fresh();
    fs.create("cut").unwrap();
    let mut content: String = std::iter::repeat('a').take(BLOCK_SIZE - 1).collect();
    content.push('é');
    fs.write_file("cut", &content).unwrap();
    assert_eq!(fs.read_file("cut"), Err(FsError::InvalidData));
}

#[test]
fn missing_files_are_not_found() {
    let mut fs = fresh();
    assert_eq!(fs.write_file("nope", "x"), Err(FsError::NotFound));
    assert_eq!(fs.read_file("nope"), Err(FsError::NotFound));
    assert_eq!(fs.stat("nope"), None);
    assert_eq!(fs.delete("nope"), Err(FsError::NotFound));
}

#[test]
fn a_new_file_is_empty() {
    let mut fs = fresh();
    fs.create("a").unwrap();
    assert_eq!(fs.read_file("a"), Err(FsError::EmptyFile));
}

#[test]
fn delete_clears_the_inode_and_the_entry() {
    let mut fs = fresh();
    fs.create("a").unwrap();
    fs.create("b").unwrap();
    fs.write_file("a", "data").unwrap();
    assert_eq!(fs.delete("a"), Ok(()));
    assert_eq!(fs.read_inode(1), Inode::default());
    assert_eq!(fs.find_inode("a"), None);
    assert_eq!(fs.read_file("a"), Err(FsError::NotFound));
    assert_eq!(fs.stat("a"), None);
    assert_eq!(fs.delete("a"), Err(FsError::NotFound));
    assert_eq!(fs.list_files(), vec![b"b".to_vec()]);
    assert_eq!(fs.find_inode("b"), Some(2));
    assert_eq!(fs.create("c"), Ok(1));
    assert_eq!(fs.list_files(), vec![b"c".to_vec(), b"b".to_vec()]);
    assert!(fs.is_well_formed());
}

#[test]
fn delete_of_a_duplicate_name_uncovers_the_next_entry() {
    let mut fs = fresh();
    fs.create("dup").unwrap();
    fs.create("dup").unwrap();
    assert_eq!(fs.delete("dup"), Ok(()));
    assert_eq!(fs.find_inode("dup"), Some(2));
    assert_eq!(fs.delete("dup"), Ok(()));
    assert_eq!(fs.find_inode("dup"), None);
    assert!(fs.list_files().is_empty());
}

#[test]
fn a_recreated_file_takes_a_new_block() {
    let mut fs = fresh();
    fs.create("a").unwrap();
    fs.write_file("a", "one").unwrap();
    fs.delete("a").unwrap();
    assert_eq!(fs.write_file("a", "two"), Err(FsError::NotFound));
    fs.create("a").unwrap();
    fs.write_file("a", "two").unwrap();
    assert_eq!(fs.read_inode(1).block, DATA_START as u32 + 2);
    assert_eq!(fs.read_file("a"), Ok(String::from("two")));
}

#[test]
fn list_in_slot_order() {
    let mut fs = fresh();
    assert!(fs.list_files().is_empty());
    fs.create("zeta").unwrap();
    fs.create("alpha").unwrap();
    assert_eq!(fs.list_files(), vec![b"zeta".to_vec(), b"alpha".to_vec()]);
}

#[test]
fn a_full_directory_drops_new_entries() {
    let mut fs = fresh();
    for i in 0..16u32 {
        fs.add_dir_entry(&format!("e{}", i), 1);
    }
    fs.add_dir_entry("late", 2);
    assert_eq!(fs.list_files().len(), 16);
    assert_eq!(fs.find_inode("late"), None);
    assert_eq!(fs.find_inode("e15"), Some(1));
}

#[test]
fn room_to_write_runs_out() {
    let mut fs = fresh();
    fs.create("a").unwrap();
    let data_blocks = NUM_BLOCKS - DATA_START - 1;
    for _ in 0..data_blocks {
        assert!(fs.has_room_to_write("a"));
        fs.write_file("a", "x").unwrap();
        fs.delete("a").unwrap();
        fs.create("a").unwrap();
    }
    assert!(!fs.has_room_to_write("a"));
    assert!(fs.has_room_to_write("missing"));
    assert!(fs.is_well_formed());
}

#[test]
fn a_broken_file_system_is_not_well_formed() {
    let mut fs = fresh();
    fs.write_inode(5, Inode { size: 4096, block: 0, file_type: 1 });
    assert!(!fs.is_well_formed());
    let mut fs = fresh();
    fs.write_inode(5, Inode { size: 0, block: 3, file_type: 1 });
    assert!(!fs.is_well_formed());
    let mut fs = fresh();
    fs.create("a").unwrap();
    fs.create("b").unwrap();
    fs.write_file("a", "x").unwrap();
    let shared = fs.read_inode(1).block;
    fs.write_inode(2, Inode { size: 0, block: shared, file_type: 1 });
    assert!(!fs.is_well_formed());
    let mut fs = fresh();
    fs.add_dir_entry("bad", 40);
    assert!(!fs.is_well_formed());
}

#[test]
fn an_added_entry_is_found() {
    let mut fs = fresh();
    assert_eq!(fs.find_inode("note"), None);
    fs.add_dir_entry("note", 7);
    assert_eq!(fs.find_inode("note"), Some(7));
    fs.add_dir_entry("other", 3);
    assert_eq!(fs.find_inode("note"), Some(7));
    assert_eq!(fs.find_inode("other"), Some(3));
}

#[test]
fn new_data_blocks_are_fresh() {
    let mut fs = fresh();
    fs.create("a").unwrap();
    fs.create("b").unwrap();
    fs.write_file("b", "bee").unwrap();
    fs.write_file("a", "ay").unwrap();
    fs.write_file("b", "bees").unwrap();
    let a = fs.read_inode(1).block as usize;
    let b = fs.read_inode(2).block as usize;
    assert_eq!(b, DATA_START + 1);
    assert_eq!(a, DATA_START + 2);
    assert_eq!(fs.read_file("a"), Ok(String::from("ay")));
    assert_eq!(fs.read_file("b"), Ok(String::from("bees")));
    assert!(fs.is_well_formed());
}
