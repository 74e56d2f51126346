use vstd::prelude::*;
use vstd::utf8::{decode_utf8, is_leading_byte_width_1, partial_valid_utf8, valid_utf8};
use crate::text::utf8_text;

verus! {

/// Longest line, in bytes, the shell keeps.
pub const MAX_LINE_LENGTH: usize = 64;

/// The line being typed, and whether it has been submitted.
#[derive(Clone, Copy)]
pub struct ShellState {
    buffer: [u8; MAX_LINE_LENGTH],
    length: usize,
    ready: bool,
}

/// A submitted line.
#[derive(Clone, Copy)]
pub struct LineBuffer {
    bytes: [u8; MAX_LINE_LENGTH],
    length: usize,
}

/// What the shell is: its buffer of `MAX_LINE_LENGTH` bytes, how many of
/// them make the line typed so far, and whether the line has been
/// submitted and waits to be taken.
#[verifier::ext_equal]
pub struct ShellView {
    pub buffer: Seq<u8>,
    pub length: nat,
    pub ready: bool,
}

/// `MAX_LINE_LENGTH` zero bytes.
pub open spec fn zero_line() -> Seq<u8> {
    Seq::new(MAX_LINE_LENGTH as nat, |i: int| 0u8)
}

impl ShellView {
    /// The buffer holds `MAX_LINE_LENGTH` bytes, and the line fits in it.
    pub open spec fn wf(self) -> bool {
        &&& self.buffer.len() == MAX_LINE_LENGTH
        &&& self.length <= MAX_LINE_LENGTH
    }

    /// Every byte of the line is a printable ASCII character.
    pub open spec fn printable(self) -> bool {
        forall|i: int| 0 <= i < self.length ==> 0x20 <= #[trigger] self.buffer[i] <= 0x7e
    }

    /// The line typed so far.
    pub open spec fn line(self) -> Seq<u8> {
        self.buffer.take(self.length as int)
    }

    /// After typing `byte`: it goes into the buffer after the line, unless
    /// the line is full.
    pub open spec fn type_byte(self, byte: u8) -> ShellView {
        if self.length >= MAX_LINE_LENGTH {
            self
        } else {
            ShellView {
                buffer: self.buffer.update(self.length as int, byte),
                length: self.length + 1,
                ready: self.ready,
            }
        }
    }

    /// After erasing: the line is one byte shorter, unless it is empty; the
    /// buffer keeps its bytes.
    pub open spec fn erase_byte(self) -> ShellView {
        if self.length == 0 {
            self
        } else {
            ShellView { buffer: self.buffer, length: (self.length - 1) as nat, ready: self.ready }
        }
    }

    /// After submitting: the line waits to be taken.
    pub open spec fn submit(self) -> ShellView {
        ShellView { buffer: self.buffer, length: self.length, ready: true }
    }

    /// After the line is taken: an empty line, not submitted; the buffer
    /// keeps its bytes.
    pub open spec fn take(self) -> ShellView {
        ShellView { buffer: self.buffer, length: 0, ready: false }
    }
}

impl ShellState {
    #[verifier::type_invariant]
    spec fn inv(&self) -> bool {
        self.length <= MAX_LINE_LENGTH
    }

    /// The buffer, the length of the line and whether it is submitted.
    pub closed spec fn view(&self) -> ShellView {
        ShellView { buffer: self.buffer@, length: self.length as nat, ready: self.ready }
    }

    /// The length of the line typed so far; the buffer of every shell
    /// holds `MAX_LINE_LENGTH` bytes and the line fits in it.
    pub fn line_len(&self) -> (len: usize)
        ensures
            len == self@.length,
            self@.wf(),
    {
        proof {
            use_type_invariant(self);
        }
        self.length
    }

    /// An empty line, not submitted, in a zeroed buffer.
    pub fn new() -> (shell: Self)
        ensures
            shell@ == (ShellView { buffer: zero_line(), length: 0, ready: false }),
            shell@.wf(),
    {
        let shell = ShellState { buffer: [0u8; MAX_LINE_LENGTH], length: 0, ready: false };
        assert(shell@.buffer =~= zero_line());
        shell
    }

    /// Adds `byte` to the line; drops it when the line is full.
    pub fn push_byte(&mut self, byte: u8)
        ensures
            old(self)@.wf(),
            final(self)@.wf(),
            final(self)@ == old(self)@.type_byte(byte),
    {
        proof {
            use_type_invariant(&*self);
        }
        if self.length >= MAX_LINE_LENGTH {
            return;
        }
        self.buffer[self.length] = byte;
        self.length = self.length + 1;
    }

    /// Removes the last byte of the line, if there is one.
    pub fn pop_byte(&mut self)
        ensures
            old(self)@.wf(),
            final(self)@.wf(),
            final(self)@ == old(self)@.erase_byte(),
    {
        proof {
            use_type_invariant(&*self);
        }
        if self.length == 0 {
            return;
        }
        self.length = self.length - 1;
    }

    /// Takes the submitted line, leaving an empty line behind; `None`, with
    /// nothing changed, when no line is submitted.
    pub fn take_line(&mut self) -> (line: Option<LineBuffer>)
        ensures
            old(self)@.wf(),
            final(self)@.wf(),
            match line {
                None => !old(self)@.ready && final(self)@ == old(self)@,
                Some(l) => {
                    &&& old(self)@.ready
                    &&& l@ == old(self)@.line()
                    &&& l.bytes() == old(self)@.line() + zero_line().skip(
                        old(self)@.length as int,
                    )
                    &&& final(self)@ == old(self)@.take()
                },
            },
    {
        proof {
            use_type_invariant(&*self);
        }
        if !self.ready {
            return None;
        }
        let mut line = LineBuffer::new();
        line.length = self.length;
        let mut i: usize = 0;
        while i < self.length
            invariant
                self.length <= MAX_LINE_LENGTH,
                line.length == self.length,
                i <= self.length,
                forall|j: int| 0 <= j < i ==> line.bytes@[j] == self.buffer@[j],
                forall|j: int| i <= j < MAX_LINE_LENGTH ==> line.bytes@[j] == 0,
            decreases self.length - i,
        {
            line.bytes[i] = self.buffer[i];
            i = i + 1;
        }
        assert(line@ =~= old(self)@.line());
        assert(line.bytes() =~= old(self)@.line() + zero_line().skip(old(self)@.length as int));
        self.length = 0;
        self.ready = false;
        Some(line)
    }
}

impl LineBuffer {
    #[verifier::type_invariant]
    spec fn inv(&self) -> bool {
        self.length <= MAX_LINE_LENGTH
    }

    /// The bytes of the line.
    pub closed spec fn view(&self) -> Seq<u8> {
        self.bytes@.take(self.length as int)
    }

    /// All `MAX_LINE_LENGTH` bytes of the buffer, the line's and those after it.
    pub closed spec fn bytes(&self) -> Seq<u8> {
        self.bytes@
    }

    /// An empty line in a zeroed buffer.
    pub fn new() -> (line: Self)
        ensures
            line@ == Seq::<u8>::empty(),
            line.bytes() == zero_line(),
    {
        let line = LineBuffer { bytes: [0u8; MAX_LINE_LENGTH], length: 0 };
        assert(line@ =~= Seq::<u8>::empty());
        assert(line.bytes() =~= zero_line());
        line
    }

    /// The line as text: its bytes read as UTF-8, or the empty text when
    /// they are not UTF-8.
    pub fn as_str(&self) -> (text: &str)
        ensures
            valid_utf8(self@) ==> text@ == decode_utf8(self@),
            !valid_utf8(self@) ==> text@ == Seq::<char>::empty(),
    {
        proof {
            use_type_invariant(self);
        }
        let bytes = vstd::slice::slice_subrange(self.bytes.as_slice(), 0, self.length);
        assert(bytes@ == self@);
        match utf8_text(bytes) {
            Some(text) => text,
            None => {
                proof {
                    reveal_strlit("");
                }
                ""
            },
        }
    }
}

/// A key as the keyboard decodes it: a character, or a key with no
/// character.
#[derive(Clone, Copy)]
pub enum Key {
    Unicode(char),
    RawKey,
}

/// What the screen and the command runner are to do after a key.
pub enum KeyAction {
    /// Print a newline when `newline`, then run `line` and print the prompt.
    Submit { newline: bool, line: LineBuffer },
    /// Move the cursor back over one character.
    Backspace,
    /// Print the character.
    Echo(char),
    /// Nothing.
    Nothing,
}

/// Return or line feed: submits the line.
pub open spec fn is_enter(c: char) -> bool {
    c == '\n' || c == '\r'
}

/// Backspace or delete: erases a character.
pub open spec fn is_erase(c: char) -> bool {
    c == '\u{8}' || c == '\u{7f}'
}

/// An ASCII character that is not a control character.
pub open spec fn is_printable(c: char) -> bool {
    0x20 <= (c as u32) && (c as u32) < 0x7f
}

/// The shell after `key`: return or line feed submits and takes the
/// line; backspace or delete erases a byte, and a printable ASCII
/// character is typed, unless the line is submitted; every other key
/// changes nothing.
pub open spec fn key_step(shell: ShellView, key: Key) -> ShellView {
    match key {
        Key::Unicode(c) => if is_enter(c) {
            shell.take()
        } else if is_erase(c) && !shell.ready {
            shell.erase_byte()
        } else if is_printable(c) && !shell.ready {
            shell.type_byte((c as u32) as u8)
        } else {
            shell
        },
        Key::RawKey => shell,
    }
}

/// The keys typed into the line are exactly the ASCII characters from
/// space to tilde, digits and punctuation included: each of them is
/// typed, as its byte, into a line that is not submitted, and no key
/// outside that range is typed.
pub proof fn law_printable_ascii_is_typed(shell: ShellView, c: char)
    ensures
        is_printable(c) <==> (0x20 <= (c as u32) && (c as u32) <= 0x7e),
        0x20 <= (c as u32) <= 0x7e ==> {
            &&& !is_enter(c)
            &&& !is_erase(c)
            &&& key_step(shell, Key::Unicode(c)) == if shell.ready {
                shell
            } else {
                shell.type_byte((c as u32) as u8)
            }
        },
{
}

/// A shell whose line is not submitted and holds only printable ASCII
/// stays so after any key: what is typed, and so every line taken, is
/// printable ASCII.
pub proof fn law_keys_keep_lines_printable(shell: ShellView, key: Key)
    requires
        shell.wf(),
        !shell.ready,
        shell.printable(),
    ensures
        key_step(shell, key).wf(),
        !key_step(shell, key).ready,
        key_step(shell, key).printable(),
{
}

/// A line of printable ASCII is valid UTF-8, so reading it as text never
/// falls back to the empty text.
pub proof fn law_printable_line_is_text(shell: ShellView)
    requires
        shell.wf(),
        shell.printable(),
    ensures
        valid_utf8(shell.line()),
{
    let line = shell.line();
    assert(line.subrange(0, 0) =~= Seq::<u8>::empty());
    assert(partial_valid_utf8(line, 0));
    assert forall|i: int| 0 <= 0 <= i < line.len() <= line.len() implies #[trigger] is_leading_byte_width_1(line[i]) by {
        assert(line[i] == shell.buffer[i]);
    }
    vstd::utf8::partial_valid_utf8_extend_ascii_block(line, 0, line.len() as int);
    assert(line.subrange(0, line.len() as int) =~= line);
}

/// Erasing right after typing a byte into a line that is not full gives
/// the line back; and typing never makes a line longer than
/// `MAX_LINE_LENGTH`.
pub proof fn law_erase_undoes_typing(shell: ShellView, byte: u8)
    requires
        shell.wf(),
    ensures
        shell.length < MAX_LINE_LENGTH ==> shell.type_byte(byte).erase_byte().line()
            == shell.line(),
        shell.length < MAX_LINE_LENGTH ==> shell.type_byte(byte).erase_byte().length
            == shell.length,
        shell.type_byte(byte).erase_byte().ready == shell.ready,
        shell.type_byte(byte).length <= MAX_LINE_LENGTH,
        shell.type_byte(byte).line() == if shell.length < MAX_LINE_LENGTH {
            shell.line().push(byte)
        } else {
            shell.line()
        },
{
    if shell.length < MAX_LINE_LENGTH {
        assert(shell.type_byte(byte).erase_byte().line() =~= shell.line());
        assert(shell.type_byte(byte).line() =~= shell.line().push(byte));
    }
}

/// Adds `character` to the line, unless the line is submitted; answers
/// whether the character is to be printed.
pub fn append_character(shell: &mut ShellState, character: char) -> (echo: bool)
    ensures
        old(shell)@.wf(),
        final(shell)@.wf(),
        echo == !old(shell)@.ready,
        old(shell)@.ready ==> final(shell)@ == old(shell)@,
        !old(shell)@.ready ==> final(shell)@ == old(shell)@.type_byte((character as u32) as u8),
{
    proof {
        use_type_invariant(&*shell);
    }
    if shell.ready {
        return false;
    }
    shell.push_byte((character as u32) as u8);
    true
}

/// Erases the last character of the line, unless the line is submitted;
/// answers whether the cursor is to move back.
pub fn erase_character(shell: &mut ShellState) -> (backspace: bool)
    ensures
        old(shell)@.wf(),
        final(shell)@.wf(),
        backspace == !old(shell)@.ready,
        old(shell)@.ready ==> final(shell)@ == old(shell)@,
        !old(shell)@.ready ==> final(shell)@ == old(shell)@.erase_byte(),
{
    proof {
        use_type_invariant(&*shell);
    }
    if shell.ready {
        return false;
    }
    shell.pop_byte();
    true
}

/// Submits the line, unless it already is; answers whether a newline is to
/// be printed.
pub fn submit_line(shell: &mut ShellState) -> (newline: bool)
    ensures
        old(shell)@.wf(),
        final(shell)@.wf(),
        newline == !old(shell)@.ready,
        final(shell)@ == old(shell)@.submit(),
{
    proof {
        use_type_invariant(&*shell);
    }
    if shell.ready {
        return false;
    }
    shell.ready = true;
    true
}

/// Takes the submitted line, if there is one.
pub fn take_line(shell: &mut ShellState) -> (line: Option<LineBuffer>)
    ensures
        old(shell)@.wf(),
        final(shell)@.wf(),
        match line {
            None => !old(shell)@.ready && final(shell)@ == old(shell)@,
            Some(l) => {
                &&& old(shell)@.ready
                &&& l@ == old(shell)@.line()
                &&& l.bytes() == old(shell)@.line() + zero_line().skip(old(shell)@.length as int)
                &&& final(shell)@ == old(shell)@.take()
            },
        },
{
    shell.take_line()
}

/// Handles one key: return or line feed submits the line and takes it to
/// be run; backspace or delete erases a character; a printable ASCII
/// character is added to the line; every other key does nothing. While a
/// line is submitted, erasing and typing do nothing.
pub fn handle_key(shell: &mut ShellState, key: Key) -> (action: KeyAction)
    ensures
        old(shell)@.wf(),
        final(shell)@.wf(),
        final(shell)@ == key_step(old(shell)@, key),
        match key {
            Key::Unicode(c) => if is_enter(c) {
                &&& action matches KeyAction::Submit { newline, line } && newline
                    == !old(shell)@.ready && line@ == old(shell)@.line() && line.bytes() == old(
                    shell,
                )@.line() + zero_line().skip(old(shell)@.length as int)
                &&& final(shell)@ == old(shell)@.take()
            } else if is_erase(c) {
                if old(shell)@.ready {
                    action is Nothing && final(shell)@ == old(shell)@
                } else {
                    action is Backspace && final(shell)@ == old(shell)@.erase_byte()
                }
            } else if is_printable(c) {
                if old(shell)@.ready {
                    action is Nothing && final(shell)@ == old(shell)@
                } else {
                    action == KeyAction::Echo(c) && final(shell)@ == old(shell)@.type_byte(
                        (c as u32) as u8,
                    )
                }
            } else {
                action is Nothing && final(shell)@ == old(shell)@
            },
            Key::RawKey => action is Nothing && final(shell)@ == old(shell)@,
        },
{
    proof {
        use_type_invariant(&*shell);
    }
    match key {
        Key::Unicode(c) => {
            if c == '\n' || c == '\r' {
                let newline = submit_line(shell);
                match take_line(shell) {
                    Some(line) => KeyAction::Submit { newline, line },
                    None => KeyAction::Nothing,
                }
            } else if c == '\u{8}' || c == '\u{7f}' {
                if erase_character(shell) {
                    KeyAction::Backspace
                } else {
                    KeyAction::Nothing
                }
            } else if is_ascii_printable(c) {
                if append_character(shell, c) {
                    KeyAction::Echo(c)
                } else {
                    KeyAction::Nothing
                }
            } else {
                KeyAction::Nothing
            }
        },
        Key::RawKey => KeyAction::Nothing,
    }
}

/// Whether `c` is ASCII and not a control character.
pub fn is_ascii_printable(c: char) -> (printable: bool)
    ensures
        printable == is_printable(c),
{
    let u = c as u32;
    u < 0x80 && !(u < 0x20 || u == 0x7f)
}

} // verus!
