use faux_unix_system::ansi::{unix_term_escape, AnsiCode, Color, ColorPicker, ControlChar};
use faux_unix_system::prompt::{display_path, expand_prompt};

#[test]
fn ansi_codes() {
    assert_eq!(AnsiCode::CursorLeft.to_bytes(), b"\x1b[D".to_vec());
    assert_eq!(AnsiCode::ClearLine.to_bytes(), b"\x1b[2K".to_vec());
    assert_eq!(AnsiCode::AbsolutePosition(12, 7).to_bytes(), b"\x1b[12;7H".to_vec());
    assert_eq!(AnsiCode::PushTop.to_bytes(), b"\x1b[pusht".to_vec());
}

#[test]
fn control_characters() {
    assert_eq!(ControlChar::A.code(), 1);
    assert_eq!(ControlChar::Z.code(), 26);
    assert!(ControlChar::C.is('\u{3}'));
    assert!(!ControlChar::C.is('c'));
    let shown: String = unix_term_escape("a\u{3}\tb\n").into_iter().collect();
    assert_eq!(shown, "a^C\tb\n");
}

#[test]
fn color_picker() {
    let mut picker = ColorPicker::new(true);
    picker.set_color(Color::Blue);
    assert_eq!(picker.write(b"x"), b"\x1b[34mx\x1b[0m".to_vec());
    picker.reset();
    assert_eq!(picker.write(b"x"), b"x\x1b[0m".to_vec());
    assert_eq!(ColorPicker::new(false).write(b"x"), b"x".to_vec());
    assert_eq!(Color::Red.as_fg(), b"\x1b[31m".to_vec());
}

#[test]
fn prompt_expansion() {
    assert_eq!(expand_prompt("\\W \\w$ ", "/root/docs", "docs"), "docs /root/docs$ ");
    assert_eq!(expand_prompt("\\W:\\w\\n\\\\", "", ""), "/:/\n\\");
    assert_eq!(expand_prompt("a\\qb\\", "", ""), "ab");
    assert_eq!(expand_prompt("\\e[1m", "", ""), "\u{1b}[1m");
}

use faux_unix_system::keyboard::{InputMode, Keyboard};

#[test]
fn line_mode_sends_whole_line_on_enter() {
    let mut kb = Keyboard::new();
    let e = kb.handle("h", false, false);
    assert_eq!(e.display, "h");
    assert!(e.send.is_none());
    kb.handle("i", false, false);
    kb.handle("x", false, false);
    let e = kb.handle("Backspace", false, false);
    assert!(e.backspace);
    let e = kb.handle("Enter", false, false);
    assert_eq!(e.display, "\n");
    assert_eq!(e.send, Some(b"hi\n".to_vec()));
}

#[test]
fn char_mode_sends_each_key() {
    let mut kb = Keyboard::new();
    kb.set_mode(InputMode::Char);
    let e = kb.handle("a", true, false);
    assert!(e.prevent_default);
    assert_eq!(e.display, "");
    assert_eq!(e.send, Some(vec![1]));
    let e = kb.handle("ArrowLeft", false, false);
    assert_eq!(e.send, Some(b"\x1b[D".to_vec()));
    let e = kb.handle("Backspace", false, false);
    assert_eq!(e.send, Some(vec![8]));
    let e = kb.handle("r", true, false);
    assert!(!e.prevent_default);
    assert_eq!(e.send, None);
}

#[test]
fn ctrl_c_interrupts_and_drops_typed_text() {
    let mut kb = Keyboard::new();
    kb.handle("l", false, false);
    let e = kb.handle("c", true, false);
    assert!(e.interrupt);
    assert_eq!(e.display, "^C");
    let e = kb.handle("Enter", false, false);
    assert_eq!(e.send, Some(b"\n".to_vec()));
    let e = kb.handle("x", false, true);
    assert_eq!(e.display, "^[x");
}

#[test]
fn root_is_shown_as_slash() {
    assert_eq!(display_path(""), "/");
    assert_eq!(display_path("/root"), "/root");
}
