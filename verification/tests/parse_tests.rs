use myos::command::{parse_command, Command};

#[test]
fn parse_help_command() {
    assert!(matches!(parse_command("help"), Command::Help));
}

#[test]
fn parse_echo_command() {
    assert!(matches!(parse_command("echo hello"), Command::Echo("hello")));
}

#[test]
fn parse_unknown_command() {
    assert!(matches!(parse_command("status"), Command::Unknown("status")));
}

#[test]
fn parse_run_tasks_command() {
    assert!(matches!(parse_command("run tasks"), Command::RunTasks));
}

#[test]
fn parse_ls_command() {
    assert!(matches!(parse_command("ls"), Command::Ls));
}

#[test]
fn parse_touch_command() {
    assert!(matches!(
        parse_command("touch hello.txt"),
        Command::Touch("hello.txt")
    ));
}

#[test]
fn parse_cat_command() {
    assert!(matches!(
        parse_command("cat hello.txt"),
        Command::Cat("hello.txt")
    ));
}

#[test]
fn parse_blank_lines_are_empty() {
    assert!(matches!(parse_command(""), Command::Empty));
    assert!(matches!(parse_command(" \t\r\n "), Command::Empty));
    assert!(matches!(parse_command("\u{3000}\u{a0}"), Command::Empty));
}

#[test]
fn parse_ignores_surrounding_white_space() {
    assert!(matches!(parse_command("  help  "), Command::Help));
    assert!(matches!(parse_command("\u{2003}ls\u{3000}"), Command::Ls));
    assert!(matches!(
        parse_command("  echo   hello world  "),
        Command::Echo("hello world")
    ));
}

#[test]
fn parse_splits_at_any_white_space() {
    assert!(matches!(parse_command("cat\tnotes"), Command::Cat("notes")));
    assert!(matches!(parse_command("rm\u{a0}\u{a0}old"), Command::Rm("old")));
}

#[test]
fn parse_every_command_word() {
    assert!(matches!(parse_command("clear"), Command::Clear));
    assert!(matches!(parse_command("tasks"), Command::Tasks));
    assert!(matches!(parse_command("meminfo"), Command::MemInfo));
    assert!(matches!(parse_command("heap"), Command::Heap));
    assert!(matches!(parse_command("pages"), Command::Pages));
    assert!(matches!(parse_command("memtest"), Command::MemTest));
    assert!(matches!(parse_command("stat a"), Command::Stat("a")));
    assert!(matches!(parse_command("rm a"), Command::Rm("a")));
}

#[test]
fn parse_run_needs_tasks() {
    assert!(matches!(parse_command("run"), Command::Unknown("run")));
    assert!(matches!(parse_command("run  tasks now"), Command::Unknown("run  tasks now")));
    assert!(matches!(parse_command("run   tasks"), Command::RunTasks));
}

#[test]
fn parse_arguments_may_be_missing() {
    assert!(matches!(parse_command("touch"), Command::Touch("")));
    assert!(matches!(parse_command("echo"), Command::Echo("")));
    assert!(matches!(parse_command("cat   "), Command::Cat("")));
}

#[test]
fn parse_write_splits_name_and_content() {
    assert!(matches!(
        parse_command("write a.txt hello  there "),
        Command::Write("a.txt", "hello  there")
    ));
    assert!(matches!(parse_command("write a.txt"), Command::Write("a.txt", "")));
    assert!(matches!(parse_command("write"), Command::Write("", "")));
    assert!(matches!(parse_command("write a.txt  x"), Command::Write("a.txt", " x")));
}

#[test]
fn parse_unknown_keeps_the_trimmed_line() {
    assert!(matches!(parse_command("  Help me "), Command::Unknown("Help me")));
}
