//! The keyboard side of the terminal: what each key press echoes, and when
//! the typed bytes reach the input stream.
use crate::ansi::{term_escape, unix_term_escape};
use crate::text::{chars_of, same_text, string_of};
use vstd::prelude::*;

verus! {

/// How typed keys reach a reader.
#[derive(Clone, Copy, Debug, PartialEq, Eq, Structural)]
pub enum InputMode {
    /// Keys are echoed and kept until Enter; then the whole line is sent.
    Line,
    /// Every key is sent at once and not echoed.
    Char,
}

/// An ASCII letter in upper case.
pub open spec fn upper(c: char) -> char {
    if 'a' <= c <= 'z' {
        ((c as u32) - 32) as char
    } else {
        c
    }
}

/// What a key press (other than Ctrl-C) types, and whether the browser
/// should not act on it: a printable key types itself, with Ctrl the control
/// character (but for R and I, left to the browser), with Alt escape and the
/// key; Tab, the arrows and Enter type a tab, a cursor move and a line feed.
pub open spec fn key_content(key: Seq<char>, ctrl: bool, alt: bool) -> Option<(Seq<char>, bool)> {
    if key.len() == 1 && (key[0] as u32) < 128 {
        let c = key[0];
        if ctrl {
            let u = upper(c);
            if '@' < u <= 'Z' && u != 'R' && u != 'I' {
                Some((seq![((u as u32) - 64) as char], true))
            } else {
                None
            }
        } else if alt {
            Some((seq!['\u{1b}', c], true))
        } else {
            Some((key, c == '\'' || c == '/' || c == '?'))
        }
    } else if key == seq!['T', 'a', 'b'] {
        Some((seq!['\t'], true))
    } else if key == seq!['A', 'r', 'r', 'o', 'w', 'L', 'e', 'f', 't'] {
        Some((seq!['\u{1b}', '[', 'D'], false))
    } else if key == seq!['A', 'r', 'r', 'o', 'w', 'R', 'i', 'g', 'h', 't'] {
        Some((seq!['\u{1b}', '[', 'C'], false))
    } else if key == seq!['A', 'r', 'r', 'o', 'w', 'U', 'p'] {
        Some((seq!['\u{1b}', '[', 'A'], false))
    } else if key == seq!['A', 'r', 'r', 'o', 'w', 'D', 'o', 'w', 'n'] {
        Some((seq!['\u{1b}', '[', 'B'], false))
    } else if key == seq!['E', 'n', 't', 'e', 'r'] {
        Some((seq!['\n'], false))
    } else {
        None
    }
}

/// The bytes of an ASCII text.
pub open spec fn key_bytes(s: Seq<char>) -> Seq<u8> {
    s.map_values(|c: char| c as u8)
}

/// The key is Ctrl-C.
pub open spec fn is_interrupt(key: Seq<char>, ctrl: bool) -> bool {
    ctrl && key == seq!['c']
}

/// The key is Backspace.
pub open spec fn is_backspace(key: Seq<char>) -> bool {
    key == seq!['B', 'a', 'c', 'k', 's', 'p', 'a', 'c', 'e']
}

/// The key is Enter.
pub open spec fn is_enter(key: Seq<char>) -> bool {
    key == seq!['E', 'n', 't', 'e', 'r']
}

/// What the terminal does for one key press.
#[derive(Clone, Debug)]
pub struct KeyEffect {
    /// Fire every registered interrupt.
    pub interrupt: bool,
    /// Keep the browser from acting on the key.
    pub prevent_default: bool,
    /// Text to write on the screen.
    pub display: String,
    /// Erase one character on the screen.
    pub backspace: bool,
    /// Bytes for the reader.
    pub send: Option<Vec<u8>>,
}

/// The typed bytes after a key's content is added, before anything is sent.
pub open spec fn typed(mode: InputMode, pending: Seq<u8>, key: Seq<char>, ctrl: bool, alt: bool) -> Seq<u8> {
    let p1 = match key_content(key, ctrl, alt) {
        Some((content, _)) => pending + key_bytes(content),
        None => pending,
    };
    if is_backspace(key) {
        if mode == InputMode::Line {
            if p1.len() > 0 { p1.drop_last() } else { p1 }
        } else {
            p1.push(8u8)
        }
    } else {
        p1
    }
}

/// Whether the typed bytes are sent after this key: at Enter in line mode,
/// and whenever there are any in character mode.
pub open spec fn sends(mode: InputMode, typed: Seq<u8>, key: Seq<char>) -> bool {
    if mode == InputMode::Line {
        is_enter(key)
    } else {
        typed.len() > 0
    }
}

/// The keyboard: its mode and the bytes typed and not yet sent.
pub struct Keyboard {
    mode: InputMode,
    pending: Vec<u8>,
}

impl Keyboard {
    /// The current mode.
    pub closed spec fn spec_mode(&self) -> InputMode {
        self.mode
    }

    /// The bytes typed and not yet sent.
    pub closed spec fn spec_pending(&self) -> Seq<u8> {
        self.pending@
    }

    /// A keyboard in line mode with nothing typed.
    pub fn new() -> (r: Keyboard)
        ensures
            r.spec_mode() == InputMode::Line,
            r.spec_pending() == Seq::<u8>::empty(),
    {
        Keyboard { mode: InputMode::Line, pending: Vec::new() }
    }

    /// Switch mode; what was typed stays.
    pub fn set_mode(&mut self, mode: InputMode)
        ensures
            final(self).spec_mode() == mode,
            final(self).spec_pending() == old(self).spec_pending(),
    {
        self.mode = mode;
    }

    /// Handle a key press: `key` is the key's name as the browser gives it,
    /// `ctrl` and `alt` the modifiers. Ctrl-C interrupts, shows `^C` and drops
    /// what was typed. Otherwise the key's content is typed and, in line mode,
    /// echoed with control characters made visible; Backspace erases the last
    /// byte in line mode and types a backspace in character mode.
    pub fn handle(&mut self, key: &str, ctrl: bool, alt: bool) -> (r: KeyEffect)
        ensures
            final(self).spec_mode() == old(self).spec_mode(),
            is_interrupt(key@, ctrl) ==> r.interrupt && r.prevent_default && r.display@ == seq!['^', 'C']
                && !r.backspace && r.send is None && final(self).spec_pending() == Seq::<u8>::empty(),
            !is_interrupt(key@, ctrl) ==> {
                let mode = old(self).spec_mode();
                let t = typed(mode, old(self).spec_pending(), key@, ctrl, alt);
                &&& !r.interrupt
                &&& r.prevent_default == match key_content(key@, ctrl, alt) {
                    Some((_, p)) => p,
                    None => false,
                }
                &&& r.display@ == match key_content(key@, ctrl, alt) {
                    Some((content, _)) => if mode == InputMode::Line {
                        term_escape(content)
                    } else {
                        seq![]
                    },
                    None => seq![],
                }
                &&& r.backspace == (is_backspace(key@) && mode == InputMode::Line
                    && old(self).spec_pending().len() + match key_content(key@, ctrl, alt) {
                    Some((content, _)) => content.len(),
                    None => 0,
                } > 0)
                &&& if sends(mode, t, key@) {
                    r.send is Some && r.send->0@ == t && final(self).spec_pending() == Seq::<u8>::empty()
                } else {
                    r.send is None && final(self).spec_pending() == t
                }
            },
    {
        proof {
            reveal_strlit("c");
            reveal_strlit("Tab");
            reveal_strlit("ArrowLeft");
            reveal_strlit("ArrowRight");
            reveal_strlit("ArrowUp");
            reveal_strlit("ArrowDown");
            reveal_strlit("Enter");
            reveal_strlit("Backspace");
            assert("c"@ =~= seq!['c']);
            assert("Tab"@ =~= seq!['T', 'a', 'b']);
            assert("ArrowLeft"@ =~= seq!['A', 'r', 'r', 'o', 'w', 'L', 'e', 'f', 't']);
            assert("ArrowRight"@ =~= seq!['A', 'r', 'r', 'o', 'w', 'R', 'i', 'g', 'h', 't']);
            assert("ArrowUp"@ =~= seq!['A', 'r', 'r', 'o', 'w', 'U', 'p']);
            assert("ArrowDown"@ =~= seq!['A', 'r', 'r', 'o', 'w', 'D', 'o', 'w', 'n']);
            assert("Enter"@ =~= seq!['E', 'n', 't', 'e', 'r']);
            assert("Backspace"@ =~= seq!['B', 'a', 'c', 'k', 's', 'p', 'a', 'c', 'e']);
        }
        if ctrl && same_text(key, "c") {
            self.pending = Vec::new();
            let caret = vec!['^', 'C'];
            assert(caret@ =~= seq!['^', 'C']);
            let display = string_of(&caret);
            return KeyEffect { interrupt: true, prevent_default: true, display, backspace: false, send: None };
        }
        let k = chars_of(key);
        let mut content: Option<(Vec<char>, bool)> = None;
        if k.len() == 1 && (k[0] as u32) < 128 {
            let c = k[0];
            if ctrl {
                let u = if 'a' <= c && c <= 'z' { (((c as u32) - 32) as u8) as char } else { c };
                assert(u == upper(c));
                if '@' < u && u <= 'Z' && u != 'R' && u != 'I' {
                    let cc = (((u as u32) - 64) as u8) as char;
                    content = Some((vec![cc], true));
                }
            } else if alt {
                content = Some((vec!['\u{1b}', c], true));
            } else {
                content = Some((vec![c], c == '\'' || c == '/' || c == '?'));
            }
        } else if same_text(key, "Tab") {
            content = Some((vec!['\t'], true));
        } else if same_text(key, "ArrowLeft") {
            content = Some((vec!['\u{1b}', '[', 'D'], false));
        } else if same_text(key, "ArrowRight") {
            content = Some((vec!['\u{1b}', '[', 'C'], false));
        } else if same_text(key, "ArrowUp") {
            content = Some((vec!['\u{1b}', '[', 'A'], false));
        } else if same_text(key, "ArrowDown") {
            content = Some((vec!['\u{1b}', '[', 'B'], false));
        } else if same_text(key, "Enter") {
            content = Some((vec!['\n'], false));
        }
        proof {
            match key_content(key@, ctrl, alt) {
                Some((kc, p)) => {
                    assert(content is Some);
                    let pair = content->0;
                    assert(pair.0@ =~= kc);
                    assert(pair.1 == p);
                },
                None => {
                    assert(content is None);
                },
            }
        }
        let mut prevent = false;
        let mut display: Vec<char> = Vec::new();
        let ghost p0 = self.pending@;
        match content {
            Some((text, p)) => {
                prevent = p;
                let mut i: usize = 0;
                while i < text.len()
                    invariant
                        i <= text@.len(),
                        self.mode == old(self).mode,
                        self.pending@ == p0 + key_bytes(text@.subrange(0, i as int)),
                    decreases text@.len() - i,
                {
                    self.pending.push(text[i] as u8);
                    i = i + 1;
                    assert(key_bytes(text@.subrange(0, i as int)) =~= key_bytes(text@.subrange(0, i - 1)).push(
                        text@[i - 1] as u8,
                    ));
                    assert(self.pending@ =~= p0 + key_bytes(text@.subrange(0, i as int)));
                }
                assert(text@.subrange(0, i as int) =~= text@);
                if self.mode == InputMode::Line {
                    display = unix_term_escape(string_of(&text).as_str());
                }
            },
            None => {},
        }
        let mut backspace = false;
        if same_text(key, "Backspace") {
            if self.mode == InputMode::Line {
                if self.pending.len() > 0 {
                    backspace = true;
                    self.pending.pop();
                }
            } else {
                self.pending.push(8);
            }
        }
        let send = if self.mode == InputMode::Line {
            same_text(key, "Enter")
        } else {
            self.pending.len() > 0
        };
        let out = if send {
            let mut out: Vec<u8> = Vec::new();
            std::mem::swap(&mut out, &mut self.pending);
            Some(out)
        } else {
            None
        };
        KeyEffect { interrupt: false, prevent_default: prevent, display: string_of(&display), backspace, send: out }
    }
}

} // verus!
