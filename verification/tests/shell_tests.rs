use myos::shell::{handle_key, take_line, Key, KeyAction, LineBuffer, ShellState};

fn type_text(shell: &mut ShellState, text: &str) {
    for c in text.chars() {
        let _ = handle_key(shell, Key::Unicode(c));
    }
}

fn submit(shell: &mut ShellState) -> (bool, LineBuffer) {
    match handle_key(shell, Key::Unicode('\n')) {
        KeyAction::Submit { newline, line } => (newline, line),
        _ => panic!("enter did not submit the line"),
    }
}

#[test]
fn typed_line_is_submitted_on_enter() {
    let mut shell = ShellState::new();
    type_text(&mut shell, "cat a.txt");
    let (newline, line) = submit(&mut shell);
    assert!(newline);
    assert_eq!(line.as_str(), "cat a.txt");
    let (_, next) = submit(&mut shell);
    assert_eq!(next.as_str(), "");
}

#[test]
fn carriage_return_submits_too() {
    let mut shell = ShellState::new();
    type_text(&mut shell, "ls");
    match handle_key(&mut shell, Key::Unicode('\r')) {
        KeyAction::Submit { newline, line } => {
            assert!(newline);
            assert_eq!(line.as_str(), "ls");
        }
        _ => panic!("return did not submit the line"),
    }
}

#[test]
fn printable_keys_echo() {
    let mut shell = ShellState::new();
    assert!(matches!(handle_key(&mut shell, Key::Unicode('a')), KeyAction::Echo('a')));
    assert!(matches!(handle_key(&mut shell, Key::Unicode(' ')), KeyAction::Echo(' ')));
    assert!(matches!(handle_key(&mut shell, Key::Unicode('~')), KeyAction::Echo('~')));
}

#[test]
fn other_keys_do_nothing() {
    let mut shell = ShellState::new();
    assert!(matches!(handle_key(&mut shell, Key::RawKey), KeyAction::Nothing));
    assert!(matches!(handle_key(&mut shell, Key::Unicode('\t')), KeyAction::Nothing));
    assert!(matches!(handle_key(&mut shell, Key::Unicode('é')), KeyAction::Nothing));
    assert!(matches!(handle_key(&mut shell, Key::Unicode('\u{1b}')), KeyAction::Nothing));
    let (_, line) = submit(&mut shell);
    assert_eq!(line.as_str(), "");
}

#[test]
fn erasing_undoes_typing() {
    let mut shell = ShellState::new();
    type_text(&mut shell, "lsx");
    assert!(matches!(handle_key(&mut shell, Key::Unicode('\u{8}')), KeyAction::Backspace));
    let (_, line) = submit(&mut shell);
    assert_eq!(line.as_str(), "ls");

    type_text(&mut shell, "ab");
    assert!(matches!(handle_key(&mut shell, Key::Unicode('\u{7f}')), KeyAction::Backspace));
    assert!(matches!(handle_key(&mut shell, Key::Unicode('\u{7f}')), KeyAction::Backspace));
    assert!(matches!(handle_key(&mut shell, Key::Unicode('\u{7f}')), KeyAction::Backspace));
    type_text(&mut shell, "c");
    let (_, line) = submit(&mut shell);
    assert_eq!(line.as_str(), "c");
}

#[test]
fn a_full_line_drops_further_bytes_but_still_echoes() {
    let mut shell = ShellState::new();
    let long: String = std::iter::repeat('x').take(64).collect();
    type_text(&mut shell, &long);
    assert!(matches!(handle_key(&mut shell, Key::Unicode('y')), KeyAction::Echo('y')));
    let (_, line) = submit(&mut shell);
    assert_eq!(line.as_str(), long.as_str());
}

#[test]
fn push_and_pop_bytes() {
    let mut shell = ShellState::new();
    shell.pop_byte();
    shell.push_byte(b'h');
    shell.push_byte(b'i');
    shell.push_byte(b'!');
    shell.pop_byte();
    assert!(take_line(&mut shell).is_none());
    assert!(myos::shell::submit_line(&mut shell));
    assert!(!myos::shell::submit_line(&mut shell));
    let line = shell.take_line().unwrap();
    assert_eq!(line.as_str(), "hi");
    assert!(shell.take_line().is_none());
}

#[test]
fn submitted_line_blocks_editing() {
    let mut shell = ShellState::new();
    assert!(myos::shell::append_character(&mut shell, 'a'));
    assert!(myos::shell::submit_line(&mut shell));
    assert!(!myos::shell::append_character(&mut shell, 'b'));
    assert!(!myos::shell::erase_character(&mut shell));
    assert!(matches!(handle_key(&mut shell, Key::Unicode('c')), KeyAction::Nothing));
    assert!(matches!(handle_key(&mut shell, Key::Unicode('\u{8}')), KeyAction::Nothing));
    match handle_key(&mut shell, Key::Unicode('\n')) {
        KeyAction::Submit { newline, line } => {
            assert!(!newline);
            assert_eq!(line.as_str(), "a");
        }
        _ => panic!("enter did not take the line"),
    }
}

#[test]
fn invalid_utf8_line_reads_as_empty_text() {
    let mut shell = ShellState::new();
    shell.push_byte(0xff);
    shell.push_byte(b'a');
    myos::shell::submit_line(&mut shell);
    let line = take_line(&mut shell).unwrap();
    assert_eq!(line.as_str(), "");
    assert_eq!(LineBuffer::new().as_str(), "");
}

#[test]
fn line_len_follows_typing_and_erasing() {
    let mut shell = ShellState::new();
    assert_eq!(shell.line_len(), 0);
    type_text(&mut shell, "abc");
    assert_eq!(shell.line_len(), 3);
    shell.pop_byte();
    assert_eq!(shell.line_len(), 2);
    shell.push_byte(b'z');
    shell.pop_byte();
    assert_eq!(shell.line_len(), 2);
    let long: String = std::iter::repeat('x').take(80).collect();
    type_text(&mut shell, &long);
    assert_eq!(shell.line_len(), 64);
}

#[test]
fn keys_only_ever_type_printable_text() {
    let mut shell = ShellState::new();
    for c in ['a', '\u{1b}', 'é', '\t', 'b', '\u{0}', '~', ' ', '\u{7f}', 'c'] {
        let _ = handle_key(&mut shell, Key::Unicode(c));
    }
    let _ = handle_key(&mut shell, Key::RawKey);
    let (_, line) = submit(&mut shell);
    assert_eq!(line.as_str(), "ab~c");
}
