use vstd::prelude::*;
use vstd::string::StringSliceAdditionalSpecFns;
use vstd::utf8::encode_utf8;
use crate::file_system::block::{disk_shape, BLOCK_SIZE, NUM_BLOCKS};
use crate::file_system::fs::{
    after_create, after_delete, after_write, create_result, file_names, file_text,
    free_inode_from, fs_wf,
    inode_safe, list_safe, lookup, next_after_write, read_safe, root_dir_block, stat_of,
    target_block, write_safe, FileSystem, FsError, FsView, INODE_COUNT,
};
use crate::file_system::inode::Inode;
use crate::file_system::laws::{law_wf_operations_safe, law_wf_read_after_write};
use crate::text::{
    all_space, law_trim_surrounding_space, lemma_word_then_rest, lemma_trim_word_then_rest, lemma_find_blank_at, lemma_all_space_drops, is_space, skip_space, drop_trailing_space, same_text, split_at_blank, split_at_space, split_blank, split_space, trim,
    trim_chars, trim_start, trim_start_chars,
};

verus! {

/// A command line, read.
pub enum Command<'a> {
    Empty,
    Help,
    Echo(&'a str),
    Clear,
    RunTasks,
    Tasks,
    MemInfo,
    Heap,
    Pages,
    MemTest,
    Ls,
    Touch(&'a str),
    Cat(&'a str),
    Stat(&'a str),
    Rm(&'a str),
    Write(&'a str, &'a str),
    Unknown(&'a str),
}

/// A command line, read, with its arguments as characters.
pub enum CommandView {
    Empty,
    Help,
    Echo(Seq<char>),
    Clear,
    RunTasks,
    Tasks,
    MemInfo,
    Heap,
    Pages,
    MemTest,
    Ls,
    Touch(Seq<char>),
    Cat(Seq<char>),
    Stat(Seq<char>),
    Rm(Seq<char>),
    Write(Seq<char>, Seq<char>),
    Unknown(Seq<char>),
}

impl<'a> Command<'a> {
    /// The command with its arguments as characters.
    pub open spec fn view(&self) -> CommandView {
        match *self {
            Command::Empty => CommandView::Empty,
            Command::Help => CommandView::Help,
            Command::Echo(t) => CommandView::Echo(t@),
            Command::Clear => CommandView::Clear,
            Command::RunTasks => CommandView::RunTasks,
            Command::Tasks => CommandView::Tasks,
            Command::MemInfo => CommandView::MemInfo,
            Command::Heap => CommandView::Heap,
            Command::Pages => CommandView::Pages,
            Command::MemTest => CommandView::MemTest,
            Command::Ls => CommandView::Ls,
            Command::Touch(n) => CommandView::Touch(n@),
            Command::Cat(n) => CommandView::Cat(n@),
            Command::Stat(n) => CommandView::Stat(n@),
            Command::Rm(n) => CommandView::Rm(n@),
            Command::Write(f, c) => CommandView::Write(f@, c@),
            Command::Unknown(t) => CommandView::Unknown(t@),
        }
    }
}

/// The command word of a trimmed, non-empty line: the characters before
/// its first white space.
pub open spec fn command_word(t: Seq<char>) -> Seq<char> {
    split_space(t).0
}

/// The arguments of a trimmed, non-empty line: what follows the first
/// white space, without its leading white space; empty when there is no
/// white space.
pub open spec fn command_args(t: Seq<char>) -> Seq<char> {
    match split_space(t).1 {
        Some(rest) => trim_start_chars(rest),
        None => Seq::empty(),
    }
}

/// The file name of `write`'s arguments: what comes before the first space.
pub open spec fn write_file_name(args: Seq<char>) -> Seq<char> {
    split_blank(args).0
}

/// The content of `write`'s arguments: what comes after the first space,
/// empty when there is none.
pub open spec fn write_content(args: Seq<char>) -> Seq<char> {
    match split_blank(args).1 {
        Some(rest) => rest,
        None => Seq::empty(),
    }
}

/// What a line says: nothing when it is all white space; otherwise its
/// command word picks the command, whose arguments are the rest of the
/// line; a word it does not know gives `Unknown` with the whole trimmed
/// line.
pub open spec fn parse_spec(line: Seq<char>) -> CommandView {
    let t = trim_chars(line);
    if t.len() == 0 {
        CommandView::Empty
    } else {
        let word = command_word(t);
        let args = command_args(t);
        if word == "help"@ {
            CommandView::Help
        } else if word == "clear"@ {
            CommandView::Clear
        } else if word == "echo"@ {
            CommandView::Echo(args)
        } else if word == "run"@ && args == "tasks"@ {
            CommandView::RunTasks
        } else if word == "tasks"@ {
            CommandView::Tasks
        } else if word == "meminfo"@ {
            CommandView::MemInfo
        } else if word == "heap"@ {
            CommandView::Heap
        } else if word == "pages"@ {
            CommandView::Pages
        } else if word == "memtest"@ {
            CommandView::MemTest
        } else if word == "ls"@ {
            CommandView::Ls
        } else if word == "touch"@ {
            CommandView::Touch(args)
        } else if word == "cat"@ {
            CommandView::Cat(args)
        } else if word == "stat"@ {
            CommandView::Stat(args)
        } else if word == "rm"@ {
            CommandView::Rm(args)
        } else if word == "write"@ {
            CommandView::Write(write_file_name(args), write_content(args))
        } else {
            CommandView::Unknown(t)
        }
    }
}

/// White space put around a line does not change the command it reads as.
pub proof fn law_parse_ignores_surrounding_space(
    before: Seq<char>,
    line: Seq<char>,
    after: Seq<char>,
)
    requires
        all_space(before),
        all_space(after),
    ensures
        parse_spec(before + line + after) == parse_spec(line),
{
    law_trim_surrounding_space(before, line, after);
}

/// A line made of a command word, a space and some text `a` reads as that
/// command with the whole of `a`, trimmed, as its argument, for `touch`,
/// `cat`, `stat`, `rm` and `echo`: spaces inside the argument are kept.
pub proof fn law_argument_is_rest_of_line(a: Seq<char>)
    ensures
        parse_spec("touch"@ + seq![' '] + a) == CommandView::Touch(trim_chars(a)),
        parse_spec("cat"@ + seq![' '] + a) == CommandView::Cat(trim_chars(a)),
        parse_spec("stat"@ + seq![' '] + a) == CommandView::Stat(trim_chars(a)),
        parse_spec("rm"@ + seq![' '] + a) == CommandView::Rm(trim_chars(a)),
        parse_spec("echo"@ + seq![' '] + a) == CommandView::Echo(trim_chars(a)),
{
    reveal_strlit("touch");
    reveal_strlit("cat");
    reveal_strlit("stat");
    reveal_strlit("rm");
    reveal_strlit("echo");
    reveal_strlit("help");
    reveal_strlit("clear");
    reveal_strlit("run");
    reveal_strlit("tasks");
    reveal_strlit("meminfo");
    reveal_strlit("heap");
    reveal_strlit("pages");
    reveal_strlit("memtest");
    reveal_strlit("ls");
    reveal_strlit("write");
    assert("touch"@[0] != "clear"@[0] && "touch"@[1] != "tasks"@[1] && "touch"@[0] != "pages"@[0]);
    assert("cat"@[0] != "run"@[0]);
    lemma_word_then_rest("touch"@, a);
    assert(command_args(trim_chars("touch"@ + seq![' '] + a)) =~= trim_chars(a));
    lemma_word_then_rest("cat"@, a);
    assert(command_args(trim_chars("cat"@ + seq![' '] + a)) =~= trim_chars(a));
    lemma_word_then_rest("stat"@, a);
    assert(command_args(trim_chars("stat"@ + seq![' '] + a)) =~= trim_chars(a));
    lemma_word_then_rest("rm"@, a);
    assert(command_args(trim_chars("rm"@ + seq![' '] + a)) =~= trim_chars(a));
    lemma_word_then_rest("echo"@, a);
    assert(command_args(trim_chars("echo"@ + seq![' '] + a)) =~= trim_chars(a));
}

/// A `write` line made of a file name without white space, a space and
/// some text `c` reads as writing all of `c`, but for its trailing white
/// space, to that file; spaces inside the content, leading ones included,
/// are kept.
pub proof fn law_write_line_content(f: Seq<char>, c: Seq<char>)
    requires
        f.len() > 0,
        forall|k: int| 0 <= k < f.len() ==> !is_space(#[trigger] f[k]),
    ensures
        parse_spec("write"@ + seq![' '] + (f + seq![' '] + c)) == CommandView::Write(
            f,
            c.subrange(0, drop_trailing_space(c, 0, c.len() as int)),
        ),
{
    reveal_strlit("touch");
    reveal_strlit("cat");
    reveal_strlit("stat");
    reveal_strlit("rm");
    reveal_strlit("echo");
    reveal_strlit("help");
    reveal_strlit("clear");
    reveal_strlit("run");
    reveal_strlit("tasks");
    reveal_strlit("meminfo");
    reveal_strlit("heap");
    reveal_strlit("pages");
    reveal_strlit("memtest");
    reveal_strlit("ls");
    reveal_strlit("write");
    let a = f + seq![' '] + c;
    lemma_word_then_rest("write"@, a);
    let line = "write"@ + seq![' '] + a;
    assert(command_args(trim_chars(line)) =~= trim_chars(a));
    lemma_trim_word_then_rest(f, c);
    let args = trim_chars(a);
    assert forall|k: int| 0 <= k < f.len() implies args[k] != ' ' by {
        assert(args[k] == f[k]);
        assert(!is_space(f[k]));
    }
    if skip_space(c, 0) < c.len() {
        lemma_find_blank_at(args, 0, f.len() as int);
        assert(write_file_name(args) =~= f);
        assert(write_content(args) =~= c.subrange(0, drop_trailing_space(c, 0, c.len() as int)));
    } else {
        lemma_find_blank_at(args, 0, f.len() as int);
        assert(write_file_name(args) =~= f);
        assert(drop_trailing_space(c, 0, c.len() as int) == 0) by {
            lemma_all_space_drops(c);
        }
        assert(write_content(args) =~= c.subrange(0, 0));
    }
}

/// Reads a command line.
pub fn parse_command(input: &str) -> (command: Command<'_>)
    ensures
        command.view() == parse_spec(input@),
{
    let trimmed = trim(input);
    if trimmed.is_empty() {
        return Command::Empty;
    }
    let (command, rest) = split_at_space(trimmed);
    let arguments = match rest {
        Some(rest) => trim_start(rest),
        None => {
            proof {
                reveal_strlit("");
            }
            ""
        },
    };
    assert(command@ == command_word(trimmed@));
    assert(arguments@ == command_args(trimmed@));
    assert(trimmed@.len() > 0);
    if same_text(command, "help") {
        Command::Help
    } else if same_text(command, "clear") {
        Command::Clear
    } else if same_text(command, "echo") {
        Command::Echo(arguments)
    } else if same_text(command, "run") && same_text(arguments, "tasks") {
        Command::RunTasks
    } else if same_text(command, "tasks") {
        Command::Tasks
    } else if same_text(command, "meminfo") {
        Command::MemInfo
    } else if same_text(command, "heap") {
        Command::Heap
    } else if same_text(command, "pages") {
        Command::Pages
    } else if same_text(command, "memtest") {
        Command::MemTest
    } else if same_text(command, "ls") {
        Command::Ls
    } else if same_text(command, "touch") {
        Command::Touch(arguments)
    } else if same_text(command, "cat") {
        Command::Cat(arguments)
    } else if same_text(command, "stat") {
        Command::Stat(arguments)
    } else if same_text(command, "rm") {
        Command::Rm(arguments)
    } else if same_text(command, "write") {
        let (filename, rest) = split_at_blank(arguments);
        let content = match rest {
            Some(content) => content,
            None => {
                proof {
                    reveal_strlit("");
                }
                ""
            },
        };
        assert(filename@ == write_file_name(arguments@));
        assert(content@ == write_content(arguments@));
        Command::Write(filename, content)
    } else {
        Command::Unknown(trimmed)
    }
}

/// Where the heap starts.
pub const HEAP_START: u64 = 0x_4444_4444_0000;

/// Size of the heap, in bytes.
pub const HEAP_SIZE: usize = 100 * 1024;

/// Size of a page, in bytes.
pub const PAGE_SIZE: usize = 4096;

/// A command that was given without the argument it needs.
#[derive(Clone, Copy, Debug, PartialEq, Eq, Structural)]
pub enum UsageOf {
    Touch,
    Write,
    Cat,
    Stat,
    Rm,
}

/// What running a command line has to show.
pub enum Response<'a> {
    /// Nothing: the line was blank.
    Nothing,
    /// The list of commands.
    Help,
    /// This text.
    Echo(&'a str),
    /// A cleared screen.
    ClearScreen,
    /// The names in the root directory, in slot order.
    Listing(Vec<Vec<u8>>),
    /// The task scheduler is to be started.
    StartTasks,
    /// What the task scheduler does.
    TasksInfo,
    /// Where the heap is and how large.
    MemInfo { heap_start: u64, heap_size: usize },
    /// The heap in more detail.
    HeapInfo { heap_start: u64, heap_size: usize },
    /// The page size and how many pages the heap takes.
    PageInfo { page_size: usize, heap_pages: usize },
    /// The value a boxed allocation held and how many elements a vector
    /// allocation stored.
    MemTest { boxed: i32, stored: usize },
    /// How the command is meant to be used.
    Usage(UsageOf),
    /// The outcome of creating the file of this name.
    Created(&'a str, Result<u32, FsError>),
    /// The outcome of writing the file of this name.
    Written(&'a str, Result<(), FsError>),
    /// The text of a file, or why there is none.
    Contents(Result<String, FsError>),
    /// The number and inode of the file of this name, if there is one.
    Status(&'a str, Option<(u32, Inode)>),
    /// The outcome of deleting the file of this name.
    Deleted(&'a str, Result<(), FsError>),
    /// This line is no known command.
    Unknown(&'a str),
}

/// Running `line` on the file system reads and writes only blocks of the
/// disk: the disk has its shape, and the command's file-system operation,
/// if it has one, is safe.
pub open spec fn can_run(fs: FsView, line: Seq<char>) -> bool {
    &&& disk_shape(fs.blocks)
    &&& match parse_spec(line) {
        CommandView::Ls => list_safe(fs.blocks),
        CommandView::Touch(name) => name.len() > 0 ==> (free_inode_from(fs.blocks, 1) < INODE_COUNT
            ==> 0 <= root_dir_block(fs.blocks) < NUM_BLOCKS),
        CommandView::Write(file, content) => file.len() > 0 ==> write_safe(
            fs.blocks,
            fs.next,
            encode_utf8(file),
        ),
        CommandView::Cat(name) => name.len() > 0 ==> read_safe(fs.blocks, encode_utf8(name)),
        CommandView::Stat(name) => name.len() > 0 ==> inode_safe(fs.blocks, encode_utf8(name)),
        CommandView::Rm(name) => name.len() > 0 ==> inode_safe(fs.blocks, encode_utf8(name)),
        _ => true,
    }
}

/// In a well-formed file system every line can run, but for a `write` that
/// needs a data block when none is left.
pub proof fn law_wf_lines_run(fs: FsView, line: Seq<char>)
    requires
        fs_wf(fs.blocks, fs.next),
        parse_spec(line) matches CommandView::Write(file, content) ==> (file.len() > 0
            ==> write_safe(fs.blocks, fs.next, encode_utf8(file))),
    ensures
        can_run(fs, line),
{
    match parse_spec(line) {
        CommandView::Cat(name) => law_wf_operations_safe(fs.blocks, fs.next, encode_utf8(name)),
        CommandView::Stat(name) => law_wf_operations_safe(fs.blocks, fs.next, encode_utf8(name)),
        CommandView::Rm(name) => law_wf_operations_safe(fs.blocks, fs.next, encode_utf8(name)),
        _ => law_wf_operations_safe(fs.blocks, fs.next, Seq::empty()),
    }
}

/// Running `line` on the file system `before` answers `r` and leaves the
/// file system `after`.
pub open spec fn runs_as(before: FsView, line: Seq<char>, r: Response, after: FsView) -> bool {
    match parse_spec(line) {
        CommandView::Empty => r is Nothing && after == before,
        CommandView::Help => r is Help && after == before,
        CommandView::Echo(t) => (r matches Response::Echo(x) && x@ == t) && after == before,
        CommandView::Clear => r is ClearScreen && after == before,
        CommandView::RunTasks => r is StartTasks && after == before,
        CommandView::Tasks => r is TasksInfo && after == before,
        CommandView::MemInfo => (r matches Response::MemInfo { heap_start, heap_size }
            && heap_start == HEAP_START && heap_size == HEAP_SIZE) && after == before,
        CommandView::Heap => (r matches Response::HeapInfo { heap_start, heap_size }
            && heap_start == HEAP_START && heap_size == HEAP_SIZE) && after == before,
        CommandView::Pages => (r matches Response::PageInfo { page_size, heap_pages }
            && page_size == PAGE_SIZE && heap_pages == HEAP_SIZE / PAGE_SIZE) && after == before,
        CommandView::MemTest => (r matches Response::MemTest { boxed, stored } && boxed == 1234
            && stored == 100) && after == before,
        CommandView::Ls => {
            &&& r matches Response::Listing(names) && names@.len() == file_names(before.blocks).len()
                && forall|i: int|
                0 <= i < names@.len() ==> #[trigger] names@[i]@ == file_names(before.blocks)[i]
            &&& after == before
        },
        CommandView::Touch(name) => if name.len() == 0 {
            r matches Response::Usage(u) && u == UsageOf::Touch && after == before
        } else {
            &&& r matches Response::Created(x, result) && x@ == name && result == create_result(
                before.blocks,
            )
            &&& after == (FsView {
                blocks: after_create(before.blocks, encode_utf8(name)),
                next: before.next,
            })
        },
        CommandView::Write(file, content) => if file.len() == 0 {
            r matches Response::Usage(u) && u == UsageOf::Write && after == before
        } else {
            &&& r matches Response::Written(x, result) && x@ == file && match lookup(
                before.blocks,
                encode_utf8(file),
            ) {
                None => result == Err::<(), FsError>(FsError::NotFound) && after == before,
                Some(k) => result == Ok::<(), FsError>(()) && after == (FsView {
                    blocks: after_write(before.blocks, before.next, k as int, encode_utf8(content)),
                    next: next_after_write(before.blocks, before.next, k as int),
                }),
            }
        },
        CommandView::Cat(name) => if name.len() == 0 {
            r matches Response::Usage(u) && u == UsageOf::Cat && after == before
        } else {
            &&& r matches Response::Contents(result) && match result {
                Ok(text) => file_text(before.blocks, encode_utf8(name)) == Ok::<
                    Seq<char>,
                    FsError,
                >(text@),
                Err(e) => file_text(before.blocks, encode_utf8(name)) == Err::<Seq<char>, FsError>(
                    e,
                ),
            }
            &&& after == before
        },
        CommandView::Stat(name) => if name.len() == 0 {
            r matches Response::Usage(u) && u == UsageOf::Stat && after == before
        } else {
            &&& r matches Response::Status(x, info) && x@ == name && info == stat_of(
                before.blocks,
                encode_utf8(name),
            )
            &&& after == before
        },
        CommandView::Rm(name) => if name.len() == 0 {
            r matches Response::Usage(u) && u == UsageOf::Rm && after == before
        } else {
            &&& r matches Response::Deleted(x, result) && x@ == name && (result is Ok <==> lookup(
                before.blocks,
                encode_utf8(name),
            ) is Some) && (result is Err ==> result == Err::<(), FsError>(FsError::NotFound))
            &&& after == (FsView {
                blocks: after_delete(before.blocks, encode_utf8(name)),
                next: before.next,
            })
        },
        CommandView::Unknown(t) => (r matches Response::Unknown(x) && x@ == t) && after == before,
    }
}

/// Running a `write` line on an existing file of a well-formed file
/// system, then reading the file, gives back exactly the content the line
/// wrote, whatever it is, the empty content included, as long as its
/// encoding fits one block and a data block is left to hand out.
pub proof fn law_write_line_then_read(
    before: FsView,
    line: Seq<char>,
    r: Response,
    after: FsView,
    file: Seq<char>,
    content: Seq<char>,
)
    requires
        fs_wf(before.blocks, before.next),
        runs_as(before, line, r, after),
        parse_spec(line) == CommandView::Write(file, content),
        file.len() > 0,
        lookup(before.blocks, encode_utf8(file)) is Some,
        target_block(
            before.blocks,
            before.next,
            lookup(before.blocks, encode_utf8(file))->Some_0 as int,
        ) < NUM_BLOCKS,
        encode_utf8(content).len() <= BLOCK_SIZE,
    ensures
        r matches Response::Written(x, result) && x@ == file && result is Ok,
        file_text(after.blocks, encode_utf8(file)) == Ok::<Seq<char>, FsError>(content),
{
    law_wf_read_after_write(before.blocks, before.next, encode_utf8(file), content);
}

/// Allocates a boxed value and a vector of a hundred elements; answers the
/// boxed value and the vector's length.
pub fn memory_test() -> (result: (i32, usize))
    ensures
        result == (1234i32, 100usize),
{
    let value = Box::new(1234i32);
    let mut vec: Vec<i32> = Vec::new();
    let mut i: i32 = 0;
    while i < 100
        invariant
            0 <= i <= 100,
            vec@.len() == i,
        decreases 100 - i,
    {
        vec.push(i);
        i = i + 1;
    }
    (*value, vec.len())
}

/// Whether the file system can run `line` (see `can_run`).
pub fn can_run_line(fs: &FileSystem, line: &str) -> (ok: bool)
    ensures
        ok == can_run(fs@, line@),
{
    if !fs.disk_is_well_formed() {
        return false;
    }
    match parse_command(line) {
        Command::Ls => fs.listing_is_safe(),
        Command::Touch(name) => name.is_empty() || fs.first_free_inode() >= INODE_COUNT
            || fs.root_dir_is_readable(),
        Command::Write(file, _) => file.is_empty() || fs.has_room_to_write(file),
        Command::Cat(name) => name.is_empty() || fs.read_is_safe(name),
        Command::Stat(name) => name.is_empty() || fs.inode_is_safe(name),
        Command::Rm(name) => name.is_empty() || fs.inode_is_safe(name),
        _ => true,
    }
}

/// Runs a command line on the file system and answers what it has to
/// show.
pub fn execute_line<'a>(fs: &mut FileSystem, line: &'a str) -> (response: Response<'a>)
    requires
        can_run(old(fs)@, line@),
    ensures
        disk_shape(final(fs)@.blocks),
        runs_as(old(fs)@, line@, response, final(fs)@),
        old(fs).wf() ==> final(fs).wf(),
{
    let command = parse_command(line);
    match command {
        Command::Empty => Response::Nothing,
        Command::Help => Response::Help,
        Command::Echo(text) => Response::Echo(text),
        Command::Clear => Response::ClearScreen,
        Command::Ls => Response::Listing(fs.list_files()),
        Command::RunTasks => Response::StartTasks,
        Command::Tasks => Response::TasksInfo,
        Command::MemInfo => Response::MemInfo { heap_start: HEAP_START, heap_size: HEAP_SIZE },
        Command::Heap => Response::HeapInfo { heap_start: HEAP_START, heap_size: HEAP_SIZE },
        Command::Pages => Response::PageInfo {
            page_size: PAGE_SIZE,
            heap_pages: HEAP_SIZE / PAGE_SIZE,
        },
        Command::MemTest => {
            let (boxed, stored) = memory_test();
            Response::MemTest { boxed, stored }
        },
        Command::Touch(name) => {
            if name.is_empty() {
                Response::Usage(UsageOf::Touch)
            } else {
                let result = fs.create(name);
                Response::Created(name, result)
            }
        },
        Command::Write(file, content) => {
            if file.is_empty() {
                Response::Usage(UsageOf::Write)
            } else {
                let result = fs.write_file(file, content);
                Response::Written(file, result)
            }
        },
        Command::Cat(name) => {
            if name.is_empty() {
                Response::Usage(UsageOf::Cat)
            } else {
                Response::Contents(fs.read_file(name))
            }
        },
        Command::Stat(name) => {
            if name.is_empty() {
                Response::Usage(UsageOf::Stat)
            } else {
                Response::Status(name, fs.stat(name))
            }
        },
        Command::Rm(name) => {
            if name.is_empty() {
                Response::Usage(UsageOf::Rm)
            } else {
                let result = fs.delete(name);
                Response::Deleted(name, result)
            }
        },
        Command::Unknown(text) => Response::Unknown(text),
    }
}

} // verus!
