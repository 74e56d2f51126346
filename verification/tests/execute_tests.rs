use myos::command::{can_run_line, execute_line, memory_test, Response, UsageOf, HEAP_SIZE, HEAP_START, PAGE_SIZE};
use myos::file_system::fs::{FileSystem, FsError, DATA_START};
use myos::file_system::inode::Inode;

fn fresh() -> FileSystem {
    let mut fs = FileSystem::new();
    fs.init();
    fs
}

#[test]
fn touch_write_cat_stat_rm() {
    let mut fs = fresh();
    assert!(matches!(execute_line(&mut fs, "touch notes"), Response::Created("notes", Ok(1))));
    assert!(matches!(execute_line(&mut fs, "write notes hello world"), Response::Written("notes", Ok(()))));
    match execute_line(&mut fs, "cat notes") {
        Response::Contents(Ok(text)) => assert_eq!(text, "hello world"),
        _ => panic!("cat did not read the file"),
    }
    match execute_line(&mut fs, "stat notes") {
        Response::Status("notes", Some((1, inode))) => {
            assert_eq!(inode, Inode { size: 11, block: DATA_START as u32 + 1, file_type: 1 })
        }
        _ => panic!("stat did not find the file"),
    }
    match execute_line(&mut fs, "ls") {
        Response::Listing(names) => assert_eq!(names, vec![b"notes".to_vec()]),
        _ => panic!("ls did not list"),
    }
    assert!(matches!(execute_line(&mut fs, "rm notes"), Response::Deleted("notes", Ok(()))));
    assert!(matches!(execute_line(&mut fs, "cat notes"), Response::Contents(Err(FsError::NotFound))));
    assert!(matches!(execute_line(&mut fs, "stat notes"), Response::Status("notes", None)));
    match execute_line(&mut fs, "ls") {
        Response::Listing(names) => assert!(names.is_empty()),
        _ => panic!("ls did not list"),
    }
    assert!(fs.is_well_formed());
}

#[test]
fn missing_arguments_give_usage() {
    let mut fs = fresh();
    assert!(matches!(execute_line(&mut fs, "touch"), Response::Usage(UsageOf::Touch)));
    assert!(matches!(execute_line(&mut fs, "write"), Response::Usage(UsageOf::Write)));
    assert!(matches!(execute_line(&mut fs, "cat "), Response::Usage(UsageOf::Cat)));
    assert!(matches!(execute_line(&mut fs, "stat"), Response::Usage(UsageOf::Stat)));
    assert!(matches!(execute_line(&mut fs, "rm"), Response::Usage(UsageOf::Rm)));
}

#[test]
fn commands_on_missing_files() {
    let mut fs = fresh();
    assert!(matches!(execute_line(&mut fs, "write ghost boo"), Response::Written("ghost", Err(FsError::NotFound))));
    assert!(matches!(execute_line(&mut fs, "cat ghost"), Response::Contents(Err(FsError::NotFound))));
    assert!(matches!(execute_line(&mut fs, "stat ghost"), Response::Status("ghost", None)));
    assert!(matches!(execute_line(&mut fs, "rm ghost"), Response::Deleted("ghost", Err(FsError::NotFound))));
}

#[test]
fn informational_commands() {
    let mut fs = fresh();
    assert!(matches!(execute_line(&mut fs, ""), Response::Nothing));
    assert!(matches!(execute_line(&mut fs, "help"), Response::Help));
    assert!(matches!(execute_line(&mut fs, "echo  hi there"), Response::Echo("hi there")));
    assert!(matches!(execute_line(&mut fs, "clear"), Response::ClearScreen));
    assert!(matches!(execute_line(&mut fs, "run tasks"), Response::StartTasks));
    assert!(matches!(execute_line(&mut fs, "tasks"), Response::TasksInfo));
    match execute_line(&mut fs, "meminfo") {
        Response::MemInfo { heap_start, heap_size } => {
            assert_eq!(heap_start, 0x4444_4444_0000);
            assert_eq!(heap_size, 102400);
        }
        _ => panic!("meminfo"),
    }
    assert!(matches!(execute_line(&mut fs, "heap"), Response::HeapInfo { heap_start: HEAP_START, heap_size: HEAP_SIZE }));
    assert!(matches!(execute_line(&mut fs, "pages"), Response::PageInfo { page_size: 4096, heap_pages: 25 }));
    assert_eq!(PAGE_SIZE, 4096);
    assert!(matches!(execute_line(&mut fs, "memtest"), Response::MemTest { boxed: 1234, stored: 100 }));
    assert!(matches!(execute_line(&mut fs, "frobnicate now"), Response::Unknown("frobnicate now")));
}

#[test]
fn memory_test_counts() {
    assert_eq!(memory_test(), (1234, 100));
}

#[test]
fn touch_runs_out_of_inodes() {
    let mut fs = fresh();
    for i in 1..16 {
        let line = format!("touch f{}", i);
        assert!(matches!(execute_line(&mut fs, &line), Response::Created(_, Ok(_))));
    }
    assert!(matches!(execute_line(&mut fs, "touch last"), Response::Created("last", Err(FsError::NoFreeInodes))));
    fs.write_inode(0, Inode { size: 0, block: 100, file_type: 2 });
    assert!(can_run_line(&fs, "touch another"));
    assert!(matches!(execute_line(&mut fs, "touch another"), Response::Created("another", Err(FsError::NoFreeInodes))));
}

#[test]
fn a_write_that_needs_a_block_cannot_run_once_the_disk_is_full() {
    let mut fs = fresh();
    execute_line(&mut fs, "touch a");
    execute_line(&mut fs, "touch b");
    execute_line(&mut fs, "write b keep");
    let mut writes = 0;
    while can_run_line(&fs, "write a x") {
        execute_line(&mut fs, "write a x");
        execute_line(&mut fs, "rm a");
        execute_line(&mut fs, "touch a");
        writes += 1;
    }
    assert_eq!(writes, 45);
    assert!(can_run_line(&fs, "write b more"));
    assert!(can_run_line(&fs, "write"));
    assert!(can_run_line(&fs, "cat a"));
    match execute_line(&mut fs, "cat b") {
        Response::Contents(Ok(text)) => assert_eq!(text, "keep"),
        _ => panic!("cat b"),
    }
}

#[test]
fn a_broken_disk_cannot_run_file_commands() {
    let mut fs = fresh();
    fs.write_inode(0, Inode { size: 0, block: 100, file_type: 2 });
    assert!(!can_run_line(&fs, "ls"));
    assert!(!can_run_line(&fs, "touch a"));
    assert!(!can_run_line(&fs, "cat a"));
    assert!(!can_run_line(&fs, "stat a"));
    assert!(!can_run_line(&fs, "rm a"));
    assert!(!can_run_line(&fs, "write a x"));
    assert!(can_run_line(&fs, "touch"));
    assert!(can_run_line(&fs, "help"));
    assert!(can_run_line(&fs, "echo hi"));
}

#[test]
fn a_file_with_a_block_off_the_disk_cannot_be_read() {
    let mut fs = fresh();
    execute_line(&mut fs, "touch a");
    fs.write_inode(1, Inode { size: 3, block: 500, file_type: 1 });
    assert!(!can_run_line(&fs, "cat a"));
    assert!(!can_run_line(&fs, "write a x"));
    assert!(can_run_line(&fs, "stat a"));
    assert!(can_run_line(&fs, "cat b"));
    fs.write_inode(1, Inode { size: 600, block: 20, file_type: 1 });
    assert!(!can_run_line(&fs, "cat a"));
    assert!(can_run_line(&fs, "write a x"));
}

#[test]
fn an_overlong_name_stops_searches_that_reach_it() {
    let mut fs = fresh();
    execute_line(&mut fs, "touch good");
    let mut block = fs.disk.read_block(DATA_START);
    block[32] = 2;
    block[36] = 30;
    fs.disk.write_block(DATA_START, block);
    assert!(!can_run_line(&fs, "ls"));
    assert!(!can_run_line(&fs, "cat other"));
    assert!(can_run_line(&fs, "cat good"));
    assert!(can_run_line(&fs, "touch more"));
}
