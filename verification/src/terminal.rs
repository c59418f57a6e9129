//! The embedded terminal's own state: its failure type, the grid geometry
//! handed to the emulator, the event sink that turns emulator events into
//! bytes for the shell and a remembered title, and the bytes a key press
//! sends.

use vstd::prelude::*;
use crate::text::{chars_of, extend_str, string_from};

verus! {

/// Something went wrong starting or driving a terminal session.
#[derive(Debug)]
pub enum TerminalError {
    /// The shell process could not be spawned.
    Spawn(String),
    /// PTY open / read / write failure.
    Io(String),
}

pub open spec fn spec_terminal_error_message(e: &TerminalError) -> Seq<char> {
    match e {
        TerminalError::Spawn(m) => "could not start the shell: "@ + m@,
        TerminalError::Io(m) => "terminal i/o error: "@ + m@,
    }
}

impl TerminalError {
    /// The human-readable description of the failure.
    pub fn message(&self) -> (r: String)
        ensures
            r@ == spec_terminal_error_message(self),
    {
        let mut out: Vec<char> = Vec::new();
        match self {
            TerminalError::Spawn(m) => {
                extend_str(&mut out, "could not start the shell: ");
                extend_str(&mut out, m.as_str());
            },
            TerminalError::Io(m) => {
                extend_str(&mut out, "terminal i/o error: ");
                extend_str(&mut out, m.as_str());
            },
        }
        string_from(out.as_slice())
    }
}

/// A grid geometry passed to the terminal emulator.
#[derive(Clone, Copy, PartialEq, Eq, Debug, Structural)]
pub struct GridSize {
    pub cols: usize,
    pub rows: usize,
}

impl GridSize {
    /// The geometry actually used for a requested size: at least two
    /// columns and one row.
    pub fn clamped(cols: usize, rows: usize) -> (g: GridSize)
        ensures
            g.cols == if cols < 2 { 2 } else { cols },
            g.rows == if rows < 1 { 1 } else { rows },
    {
        GridSize { cols: if cols < 2 { 2 } else { cols }, rows: if rows < 1 { 1 } else { rows } }
    }

    /// Lines the grid holds (no separate scrollback in this geometry).
    pub fn total_lines(&self) -> (n: usize)
        ensures
            n == self.rows,
    {
        self.rows
    }

    /// Lines on screen.
    pub fn screen_lines(&self) -> (n: usize)
        ensures
            n == self.rows,
    {
        self.rows
    }

    pub fn columns(&self) -> (n: usize)
        ensures
            n == self.cols,
    {
        self.cols
    }
}

/// Whether a resize to `cols`×`rows` changes anything, given the current
/// geometry `cur`; the new geometry when it does.
pub fn resize_target(cur: GridSize, cols: usize, rows: usize) -> (r: Option<GridSize>)
    ensures
        ({
            let next = GridSize {
                cols: if cols < 2 { 2 } else { cols },
                rows: if rows < 1 { 1 } else { rows },
            };
            if next == cur {
                r is None
            } else {
                r == Some(next)
            }
        }),
{
    let next = GridSize::clamped(cols, rows);
    if next == cur {
        None
    } else {
        Some(next)
    }
}

/// What the terminal emulator reports.
pub enum TermEvent {
    /// Bytes the terminal itself answers with, to go back to the shell.
    PtyWrite(String),
    /// The shell set the window title.
    Title(String),
    /// The shell reset the window title.
    ResetTitle,
    /// The shell process exited with this code.
    ChildExit(i32),
    /// The terminal shut down.
    Exit,
    /// Anything else (bell, clipboard, cursor blinking, ...).
    Other,
}

/// The emulator's event sink: remembers the title, flags a repaint, notes
/// when the child exits, and hands back what must be written to the shell.
pub struct Proxy {
    /// A repaint is due.
    pub dirty: bool,
    /// The shell has exited.
    pub exited: bool,
    /// The current window title.
    pub title: String,
}

impl Proxy {
    /// A fresh session's sink: nothing painted yet, so a repaint is due
    /// at once; no title, and the shell running.
    pub fn new() -> (p: Proxy)
        ensures
            p.dirty,
            !p.exited,
            p.title@ == Seq::<char>::empty(),
    {
        Proxy { dirty: true, exited: false, title: String::new() }
    }

    /// Take one event; returns the bytes to write back to the shell, if any.
    pub fn send_event(&mut self, event: TermEvent) -> (write: Option<String>)
        ensures
            final(self).dirty,
            match event {
                TermEvent::PtyWrite(t) => {
                    &&& write == Some(t)
                    &&& final(self).title@ == old(self).title@
                    &&& final(self).exited == old(self).exited
                },
                TermEvent::Title(t) => {
                    &&& write is None
                    &&& final(self).title@ == t@
                    &&& final(self).exited == old(self).exited
                },
                TermEvent::ResetTitle => {
                    &&& write is None
                    &&& final(self).title@ == Seq::<char>::empty()
                    &&& final(self).exited == old(self).exited
                },
                TermEvent::ChildExit(_) | TermEvent::Exit => {
                    &&& write is None
                    &&& final(self).exited
                    &&& final(self).title@ == old(self).title@
                },
                TermEvent::Other => {
                    &&& write is None
                    &&& final(self).exited == old(self).exited
                    &&& final(self).title@ == old(self).title@
                },
            },
    {
        let write = match event {
            TermEvent::PtyWrite(text) => Some(text),
            TermEvent::Title(t) => {
                self.title = t;
                None
            },
            TermEvent::ResetTitle => {
                self.title = String::new();
                None
            },
            TermEvent::ChildExit(_) => {
                self.exited = true;
                None
            },
            TermEvent::Exit => {
                self.exited = true;
                None
            },
            TermEvent::Other => None,
        };
        self.dirty = true;
        write
    }

    /// Whether a repaint is due, clearing the flag.
    pub fn take_dirty(&mut self) -> (was: bool)
        ensures
            was == old(self).dirty,
            !final(self).dirty,
            final(self).exited == old(self).exited,
            final(self).title == old(self).title,
    {
        let was = self.dirty;
        self.dirty = false;
        was
    }
}


/// A key press as the terminal sees it: one of the keys it encodes by
/// name, a key that types a character, or any other key.
#[derive(Clone, Copy, PartialEq, Eq, Debug, Structural)]
pub enum TermKey {
    Return,
    KeypadEnter,
    BackSpace,
    Tab,
    LeftTab,
    Escape,
    Up,
    Down,
    Right,
    Left,
    Home,
    End,
    PageUp,
    PageDown,
    Delete,
    Insert,
    /// A key that types this character.
    Char(char),
    /// A key with no character and no encoding of its own.
    Other,
}

/// `ESC [ c`, or `ESC O c` in application cursor mode.
pub open spec fn cursor_seq(c: u8, app_cursor: bool) -> Seq<u8> {
    if app_cursor {
        seq![0x1bu8, 0x4fu8, c]
    } else {
        seq![0x1bu8, 0x5bu8, c]
    }
}

/// The bytes of the keys encoded by name.
pub open spec fn named_key_bytes(k: TermKey, app_cursor: bool) -> Option<Seq<u8>> {
    match k {
        TermKey::Return | TermKey::KeypadEnter => Some(seq![0x0du8]),
        TermKey::BackSpace => Some(seq![0x7fu8]),
        TermKey::Tab => Some(seq![0x09u8]),
        TermKey::LeftTab => Some(seq![0x1bu8, 0x5bu8, 0x5au8]),
        TermKey::Escape => Some(seq![0x1bu8]),
        TermKey::Up => Some(cursor_seq(0x41, app_cursor)),
        TermKey::Down => Some(cursor_seq(0x42, app_cursor)),
        TermKey::Right => Some(cursor_seq(0x43, app_cursor)),
        TermKey::Left => Some(cursor_seq(0x44, app_cursor)),
        TermKey::Home => Some(seq![0x1bu8, 0x5bu8, 0x48u8]),
        TermKey::End => Some(seq![0x1bu8, 0x5bu8, 0x46u8]),
        TermKey::PageUp => Some(seq![0x1bu8, 0x5bu8, 0x35u8, 0x7eu8]),
        TermKey::PageDown => Some(seq![0x1bu8, 0x5bu8, 0x36u8, 0x7eu8]),
        TermKey::Delete => Some(seq![0x1bu8, 0x5bu8, 0x33u8, 0x7eu8]),
        TermKey::Insert => Some(seq![0x1bu8, 0x5bu8, 0x32u8, 0x7eu8]),
        TermKey::Char(_) | TermKey::Other => None,
    }
}

/// The UTF-8 encoding of `c`.
pub open spec fn utf8(c: char) -> Seq<u8> {
    let n = c as int;
    if n < 0x80 {
        seq![n as u8]
    } else if n < 0x800 {
        seq![(0xc0 + n / 64) as u8, (0x80 + n % 64) as u8]
    } else if n < 0x10000 {
        seq![(0xe0 + n / 4096) as u8, (0x80 + (n / 64) % 64) as u8, (0x80 + n % 64) as u8]
    } else {
        seq![
            (0xf0 + n / 262144) as u8,
            (0x80 + (n / 4096) % 64) as u8,
            (0x80 + (n / 64) % 64) as u8,
            (0x80 + n % 64) as u8,
        ]
    }
}

/// The control code Ctrl plus `c` sends: Ctrl-A..Ctrl-Z (either case) and
/// a few adjacent codes.
pub open spec fn ctrl_code(c: char) -> Option<u8> {
    if 'a' <= c && c <= 'z' {
        Some((c as int - 'a' as int + 1) as u8)
    } else if 'A' <= c && c <= 'Z' {
        Some((c as int - 'A' as int + 1) as u8)
    } else if c == ' ' || c == '@' {
        Some(0u8)
    } else if c == '[' {
        Some(0x1bu8)
    } else if c == '\\' {
        Some(0x1cu8)
    } else if c == ']' {
        Some(0x1du8)
    } else if c == '^' {
        Some(0x1eu8)
    } else if c == '_' {
        Some(0x1fu8)
    } else {
        None
    }
}

/// The bytes a key press sends, or `None` to leave the key to the
/// toolkit.
pub open spec fn spec_encode_key(k: TermKey, ctrl: bool, alt: bool, app_cursor: bool) -> Option<
    Seq<u8>,
> {
    match named_key_bytes(k, app_cursor) {
        Some(b) => Some(b),
        None => match k {
            TermKey::Char(c) => Some(
                (if alt {
                    seq![0x1bu8]
                } else {
                    seq![]
                }) + if ctrl {
                    match ctrl_code(c) {
                        Some(b) => seq![b],
                        None => utf8(c),
                    }
                } else {
                    utf8(c)
                },
            ),
            _ => None,
        },
    }
}

fn push_utf8(out: &mut Vec<u8>, c: char)
    ensures
        final(out)@ == old(out)@ + utf8(c),
{
    let n = c as u32;
    if n < 0x80 {
        out.push(n as u8);
    } else if n < 0x800 {
        out.push((0xc0 + n / 64) as u8);
        out.push((0x80 + n % 64) as u8);
    } else if n < 0x10000 {
        out.push((0xe0 + n / 4096) as u8);
        out.push((0x80 + (n / 64) % 64) as u8);
        out.push((0x80 + n % 64) as u8);
    } else {
        assert(n <= 0x10ffff);
        out.push((0xf0 + n / 262144) as u8);
        out.push((0x80 + (n / 4096) % 64) as u8);
        out.push((0x80 + (n / 64) % 64) as u8);
        out.push((0x80 + n % 64) as u8);
    }
    assert(out@ =~= old(out)@ + utf8(c));
}

fn ctrl_byte(c: char) -> (r: Option<u8>)
    ensures
        r == ctrl_code(c),
{
    if 'a' <= c && c <= 'z' {
        Some((c as u32 - 'a' as u32 + 1) as u8)
    } else if 'A' <= c && c <= 'Z' {
        Some((c as u32 - 'A' as u32 + 1) as u8)
    } else if c == ' ' || c == '@' {
        Some(0u8)
    } else if c == '[' {
        Some(0x1bu8)
    } else if c == '\\' {
        Some(0x1cu8)
    } else if c == ']' {
        Some(0x1du8)
    } else if c == '^' {
        Some(0x1eu8)
    } else if c == '_' {
        Some(0x1fu8)
    } else {
        None
    }
}

fn cursor_bytes(c: u8, app_cursor: bool) -> (r: Vec<u8>)
    ensures
        r@ == cursor_seq(c, app_cursor),
{
    if app_cursor {
        vec![0x1bu8, 0x4fu8, c]
    } else {
        vec![0x1bu8, 0x5bu8, c]
    }
}

/// Bytes to send for a key press, or `None` to let the toolkit handle it.
pub fn encode_key(key: TermKey, ctrl: bool, alt: bool, app_cursor: bool) -> (r: Option<Vec<u8>>)
    ensures
        match r {
            Some(v) => spec_encode_key(key, ctrl, alt, app_cursor) == Some(v@),
            None => spec_encode_key(key, ctrl, alt, app_cursor) is None,
        },
{
    match key {
        TermKey::Return | TermKey::KeypadEnter => Some(vec![0x0du8]),
        TermKey::BackSpace => Some(vec![0x7fu8]),
        TermKey::Tab => Some(vec![0x09u8]),
        TermKey::LeftTab => Some(vec![0x1bu8, 0x5bu8, 0x5au8]),
        TermKey::Escape => Some(vec![0x1bu8]),
        TermKey::Up => Some(cursor_bytes(0x41, app_cursor)),
        TermKey::Down => Some(cursor_bytes(0x42, app_cursor)),
        TermKey::Right => Some(cursor_bytes(0x43, app_cursor)),
        TermKey::Left => Some(cursor_bytes(0x44, app_cursor)),
        TermKey::Home => Some(vec![0x1bu8, 0x5bu8, 0x48u8]),
        TermKey::End => Some(vec![0x1bu8, 0x5bu8, 0x46u8]),
        TermKey::PageUp => Some(vec![0x1bu8, 0x5bu8, 0x35u8, 0x7eu8]),
        TermKey::PageDown => Some(vec![0x1bu8, 0x5bu8, 0x36u8, 0x7eu8]),
        TermKey::Delete => Some(vec![0x1bu8, 0x5bu8, 0x33u8, 0x7eu8]),
        TermKey::Insert => Some(vec![0x1bu8, 0x5bu8, 0x32u8, 0x7eu8]),
        TermKey::Other => None,
        TermKey::Char(c) => {
            let mut out: Vec<u8> = Vec::new();
            if alt {
                out.push(0x1bu8);
            }
            let ghost head = out@;
            if ctrl {
                match ctrl_byte(c) {
                    Some(b) => out.push(b),
                    None => push_utf8(&mut out, c),
                }
            } else {
                push_utf8(&mut out, c);
            }
            assert(out@ =~= (if alt {
                seq![0x1bu8]
            } else {
                seq![]
            }) + (if ctrl {
                match ctrl_code(c) {
                    Some(b) => seq![b],
                    None => utf8(c),
                }
            } else {
                utf8(c)
            }));
            Some(out)
        },
    }
}

/// The UTF-8 encoding of a string.
pub open spec fn utf8_str(s: Seq<char>) -> Seq<u8>
    decreases s.len(),
{
    if s.len() == 0 {
        Seq::empty()
    } else {
        utf8_str(s.drop_last()) + utf8(s.last())
    }
}

/// `s` with every `\r` dropped.
pub open spec fn drop_cr(s: Seq<char>) -> Seq<char> {
    s.filter(|c: char| c != '\r')
}

/// The bytes a paste of `text` sends to the shell: the text with every
/// `\r` dropped, between `ESC [200~` and `ESC [201~` when the terminal has
/// asked for bracketed paste.
pub open spec fn spec_paste_bytes(text: Seq<char>, bracketed: bool) -> Seq<u8> {
    let body = utf8_str(drop_cr(text));
    if bracketed {
        seq![0x1bu8, 0x5bu8, 0x32u8, 0x30u8, 0x30u8, 0x7eu8] + body + seq![
            0x1bu8,
            0x5bu8,
            0x32u8,
            0x30u8,
            0x31u8,
            0x7eu8,
        ]
    } else {
        body
    }
}

fn push_bracket(out: &mut Vec<u8>, last: u8)
    ensures
        final(out)@ == old(out)@ + seq![0x1bu8, 0x5bu8, 0x32u8, 0x30u8, last, 0x7eu8],
{
    out.push(0x1b);
    out.push(0x5b);
    out.push(0x32);
    out.push(0x30);
    out.push(last);
    out.push(0x7e);
    assert(out@ =~= old(out)@ + seq![0x1bu8, 0x5bu8, 0x32u8, 0x30u8, last, 0x7eu8]);
}

/// The bytes to write to the shell for a paste of `text` (the clipboard's
/// contents), bracketed or not as the terminal's mode asks.
pub fn paste_bytes(text: &str, bracketed: bool) -> (out: Vec<u8>)
    ensures
        out@ == spec_paste_bytes(text@, bracketed),
{
    let cs = chars_of(text);
    let mut out: Vec<u8> = Vec::new();
    if bracketed {
        push_bracket(&mut out, 0x30);
    }
    let ghost start = out@;
    let mut i: usize = 0;
    while i < cs.len()
        invariant
            i <= cs@.len(),
            out@ == start + utf8_str(drop_cr(cs@.take(i as int))),
        decreases cs@.len() - i,
    {
        let c = cs[i];
        proof {
            let t = cs@.take(i + 1);
            assert(t.drop_last() =~= cs@.take(i as int));
            assert(t.last() == c);
            reveal(Seq::filter);
            assert(drop_cr(t) == if c != '\r' {
                drop_cr(cs@.take(i as int)).push(c)
            } else {
                drop_cr(cs@.take(i as int))
            });
        }
        if c != '\r' {
            let ghost f = drop_cr(cs@.take(i as int));
            push_utf8(&mut out, c);
            assert(f.push(c).drop_last() =~= f);
            assert(out@ =~= start + utf8_str(f.push(c)));
        }
        i += 1;
    }
    assert(cs@.take(cs@.len() as int) =~= cs@);
    if bracketed {
        push_bracket(&mut out, 0x31);
    }
    assert(out@ =~= spec_paste_bytes(text@, bracketed));
    out
}

} // verus!
