use faux_unix_system::completion::{command_position, split_path, starts_like_path, suggestion};
use faux_unix_system::dispatch::shell_commands;
use faux_unix_system::readline::{
    decode_bracket, decode_escape, decode_plain, Completion, EditKey, LineEditor,
};

fn strings(v: &[&str]) -> Vec<String> {
    v.iter().map(|s| s.to_string()).collect()
}

fn type_text(ed: &mut LineEditor, text: &str) {
    for c in text.chars() {
        ed.apply(decode_plain(c));
    }
}

#[test]
fn keys_decode() {
    assert_eq!(decode_plain('a'), EditKey::Insert('a'));
    assert_eq!(decode_plain('\u{1}'), EditKey::Home);
    assert_eq!(decode_plain('\r'), EditKey::Submit);
    assert_eq!(decode_plain('\u{8}'), EditKey::Backspace);
    assert_eq!(decode_plain('\u{7}'), EditKey::Ignore);
    assert_eq!(decode_bracket('A'), EditKey::Up);
    assert_eq!(decode_bracket('D'), EditKey::Left);
    assert_eq!(decode_escape('b'), EditKey::WordLeft);
}

#[test]
fn editing_keys_change_line_and_cursor() {
    let mut ed = LineEditor::new(&Vec::new());
    type_text(&mut ed, "helo");
    ed.apply(EditKey::Left);
    ed.apply(EditKey::Insert('l'));
    assert_eq!(ed.line(), "hello");
    assert_eq!(ed.cursor(), 4);
    ed.apply(EditKey::Home);
    ed.apply(EditKey::Delete);
    assert_eq!(ed.line(), "ello");
    ed.apply(EditKey::End);
    ed.apply(EditKey::Backspace);
    assert_eq!((ed.line().as_str(), ed.cursor()), ("ell", 3));
    ed.apply(EditKey::Left);
    ed.apply(EditKey::KillAfter);
    assert_eq!(ed.line(), "el");
    ed.apply(EditKey::KillBefore);
    assert_eq!((ed.line().as_str(), ed.cursor()), ("", 0));
}

#[test]
fn word_moves() {
    let mut ed = LineEditor::new(&Vec::new());
    type_text(&mut ed, "ls  -la  dir");
    ed.apply(EditKey::WordLeft);
    assert_eq!(ed.cursor(), 9);
    ed.apply(EditKey::WordLeft);
    assert_eq!(ed.cursor(), 4);
    ed.apply(EditKey::Home);
    ed.apply(EditKey::WordRight);
    assert_eq!(ed.cursor(), 2);
    ed.apply(EditKey::WordRight);
    assert_eq!(ed.cursor(), 7);
}

#[test]
fn history_is_walked_with_arrows() {
    let mut ed = LineEditor::new(&strings(&["first", "second"]));
    ed.apply(EditKey::Up);
    assert_eq!((ed.line().as_str(), ed.cursor()), ("second", 6));
    ed.apply(EditKey::Up);
    ed.apply(EditKey::Up);
    assert_eq!(ed.line(), "first");
    ed.apply(EditKey::Down);
    ed.apply(EditKey::Down);
    assert_eq!(ed.line(), "");
}

#[test]
fn completion_fills_common_prefix_or_lists() {
    let mut ed = LineEditor::new(&Vec::new());
    type_text(&mut ed, "cat fo");
    assert_eq!(ed.completion_context(), ("cat fo".to_string(), 4));
    assert_eq!(ed.complete(&strings(&["foobar ", "foobaz "])), Completion::Completed);
    assert_eq!(ed.line(), "cat fooba");
    assert_eq!(
        ed.complete(&strings(&["foobaz ", "foobar "])),
        Completion::Choices(strings(&["foobar ", "foobaz "]))
    );
    assert_eq!(ed.complete(&Vec::new()), Completion::Nothing);
    assert_eq!(ed.complete(&strings(&["foobar "])), Completion::Completed);
    assert_eq!((ed.line().as_str(), ed.cursor()), ("cat foobar ", 11));
}

#[test]
fn refresh_redraws_line() {
    let mut ed = LineEditor::new(&Vec::new());
    type_text(&mut ed, "ab");
    ed.apply(EditKey::Left);
    assert_eq!(ed.refresh(2), "\x1b[D\x1b[D\x1b[0Kab\x1b[D");
}

#[test]
fn completion_decisions() {
    assert!(command_position(""));
    assert!(command_position("ca"));
    assert!(!command_position("cat "));
    assert!(!command_position("cat fi"));
    assert!(command_position("cat f | gr"));
    assert!(command_position("a && ec"));
    assert!(!command_position("a && "));
    assert!(starts_like_path("./x"));
    assert!(starts_like_path("~/x"));
    assert!(!starts_like_path("x/y"));
    assert_eq!(split_path("usr/lo"), ("usr".to_string(), "lo".to_string()));
    assert_eq!(split_path("/et"), ("/".to_string(), "et".to_string()));
    assert_eq!(split_path("fi"), (String::new(), "fi".to_string()));
    assert_eq!(suggestion("/", "etc", false), "/etc/");
    assert_eq!(suggestion("usr", "local", false), "usr/local/");
    assert_eq!(suggestion("", "file", true), "file ");
    assert_eq!(shell_commands().len(), 7);
}
