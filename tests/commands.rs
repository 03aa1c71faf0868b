use faux_unix_system::builtins::{assign, cd_target, exec_args, exit, export, record_cd, source_args};
use faux_unix_system::context::ShellContext;
use faux_unix_system::dispatch::{
    appends, classify, constant_status, runs_rhs, AbortRace, AbortableResult, Builtin, Chain,
    CommandKind,
};
use faux_unix_system::echo::{echo_text, unescape};
use faux_unix_system::error::ShellError;
use faux_unix_system::exit_code::ExitCode;
use faux_unix_system::iter::ExtendableIterator;
use faux_unix_system::lexer::{TokenizeStep, Tokenizer};
use faux_unix_system::options::{sh_mode, ShMode};
use faux_unix_system::parser::parse;
use faux_unix_system::test_cmd::TestError;
use faux_unix_system::tokens::Token;
use faux_unix_system::vars::VarMap;

fn strings(v: &[&str]) -> Vec<String> {
    v.iter().map(|s| s.to_string()).collect()
}

fn statement(ctx: &mut ShellContext, env: &mut VarMap, source: &str) -> Token {
    let mut it = ExtendableIterator::new(source.chars().collect());
    let mut t = Tokenizer::new();
    match t.run(ctx, env, &Vec::new(), &mut it).unwrap() {
        TokenizeStep::Done(tokens) => parse(tokens).unwrap(),
        TokenizeStep::Subshell(_) => panic!(),
    }
}

fn command_words(t: &Token) -> Vec<String> {
    match t {
        Token::Command(w) => w.clone(),
        _ => panic!("{t:?}"),
    }
}

#[test]
fn escape_sequences() {
    assert_eq!(unescape("h\\\\ello\\nworld\\t"), "h\\ello\nworld\t");

    assert_eq!(unescape("\\x08"), "\x08");
    assert_eq!(unescape("\\x34"), "\x34");

    assert_eq!(unescape("hi\\"), "hi\\");
    assert_eq!(unescape("hi\\\\"), "hi\\");
}

#[test]
fn unicode_escape_and_bad_digits() {
    assert_eq!(unescape("\\u0001F600"), "\u{1F600}");
    assert_eq!(unescape("\\x4"), "@");
    assert_eq!(unescape("\\u0000D800x"), "x");
    assert_eq!(unescape("\\q\\e"), "q\u{1b}");
}

#[test]
fn echo_joins_words_and_ends_line() {
    assert_eq!(echo_text(&strings(&["hi", "there"]), false, false), "hi there\n");
    assert_eq!(echo_text(&strings(&["hi"]), true, false), "hi");
    assert_eq!(echo_text(&strings(&["a\\n"]), false, true), "a\n");
    assert_eq!(echo_text(&Vec::new(), false, false), "\n");
}

#[test]
fn exit_codes_convert() {
    assert_eq!(ExitCode::from(0u8), ExitCode::Success);
    assert_eq!(ExitCode::from(3u8), ExitCode::Failure(3));
    assert_eq!(ExitCode::Failure(3).code(), 3);
    assert!(ExitCode::SUCCESS.is_success());
    assert!(ExitCode::failure().is_failure());
    assert_eq!(ExitCode::default(), ExitCode::Success);
}

#[test]
fn builtins_are_classified() {
    assert_eq!(classify(&strings(&["cd", "/"])), Ok(CommandKind::Builtin(Builtin::Cd)));
    assert_eq!(classify(&strings(&[".", "f"])), Ok(CommandKind::Builtin(Builtin::Source)));
    assert_eq!(classify(&strings(&["ls"])), Ok(CommandKind::Program));
    assert_eq!(classify(&Vec::new()), Err(ShellError::EmptyCommand));
    assert_eq!(constant_status(Builtin::False), Some(ExitCode::Failure(1)));
    assert_eq!(constant_status(Builtin::Cd), None);
}

#[test]
fn chains_and_redirect_modes() {
    assert!(runs_rhs(Chain::And, ExitCode::Success));
    assert!(!runs_rhs(Chain::And, ExitCode::Failure(2)));
    assert!(runs_rhs(Chain::Or, ExitCode::Failure(2)));
    assert!(!runs_rhs(Chain::Or, ExitCode::Success));
    assert!(appends(true, true));
    assert!(!appends(true, false));
    assert!(!appends(false, true));
}

#[test]
fn abort_race_first_signal_wins() {
    let mut race: AbortRace<u8, ShellError> = AbortRace::new();
    race.abort();
    race.finish(Ok(1));
    assert!(matches!(race.outcome(), Some(AbortableResult::Aborted)));

    let mut race: AbortRace<u8, ShellError> = AbortRace::new();
    race.finish(Ok(1));
    race.abort();
    assert!(matches!(race.outcome(), Some(AbortableResult::Completed(Ok(1)))));

    assert_eq!(AbortableResult::<u8, ShellError>::Aborted.fail_if_aborted(ShellError::Interrupt), Err(ShellError::Interrupt));
    assert_eq!(AbortableResult::<u8, ShellError>::Aborted.completed_or(Ok(4)), Ok(4));
    assert_eq!(AbortableResult::<u8, ShellError>::Completed(Ok(2u8)).completed_or(Ok(4)), Ok(2));
}

#[test]
fn export_then_expand() {
    let mut ctx = ShellContext::new();
    let mut env = VarMap::new();
    assert_eq!(export(&mut ctx, &mut env, &strings(&["export", "foo=bar"])), ExitCode::Success);
    let t = statement(&mut ctx, &mut env, "echo ${foo}${foo}");
    assert_eq!(command_words(&t), strings(&["echo", "barbar"]));
    export(&mut ctx, &mut env, &strings(&["export", "foo=foo${foo}"]));
    assert_eq!(env.get("foo"), Some("foo${foo}".to_string()));
    ctx.variables.insert("local".into(), "v".into());
    export(&mut ctx, &mut env, &strings(&["export", "local", "none"]));
    assert_eq!(env.get("local"), Some("v".to_string()));
    assert_eq!(env.get("none"), Some(String::new()));
}

#[test]
fn test_and_chain_scenarios() {
    let mut ctx = ShellContext::new();
    let mut env = VarMap::new();
    match statement(&mut ctx, &mut env, "test a == a && echo yes") {
        Token::And(lhs, rhs) => {
            let code = faux_unix_system::test_cmd::test(&command_words(&lhs)).unwrap();
            assert_eq!(code, ExitCode::Success);
            assert!(runs_rhs(Chain::And, code));
            let words = command_words(&rhs);
            assert_eq!(echo_text(&words[1..].to_vec(), false, false), "yes\n");
        }
        other => panic!("{other:?}"),
    }
    match statement(&mut ctx, &mut env, "test a != a || echo no") {
        Token::Or(lhs, rhs) => {
            let code = faux_unix_system::test_cmd::test(&command_words(&lhs)).unwrap();
            assert!(runs_rhs(Chain::Or, code));
            assert_eq!(echo_text(&command_words(&rhs)[1..].to_vec(), false, false), "no\n");
        }
        other => panic!("{other:?}"),
    }
    assert_eq!(faux_unix_system::test_cmd::test(&strings(&["test", "!", "a", "!=", "a"])), Ok(ExitCode::Success));
}

#[test]
fn test_command_forms() {
    assert_eq!(faux_unix_system::test_cmd::test(&strings(&["[", "x", "==", "x", "]"])), Ok(ExitCode::Success));
    assert_eq!(faux_unix_system::test_cmd::test(&strings(&["[", "x", "==", "x"])), Err(TestError::ExpectedBracket));
    assert_eq!(faux_unix_system::test_cmd::test(&strings(&["test", "abc", "=~", "^a.c$"])), Ok(ExitCode::Success));
    assert_eq!(faux_unix_system::test_cmd::test(&strings(&["test", "abd", "=~", "^a.c$"])), Ok(ExitCode::Failure(1)));
    assert_eq!(faux_unix_system::test_cmd::test(&strings(&["test", "a", "=~", "("])), Err(TestError::BadPattern));
    assert_eq!(faux_unix_system::test_cmd::test(&strings(&["test", "a", "<", "b"])), Err(TestError::UnknownOperator));
    assert_eq!(faux_unix_system::test_cmd::test(&strings(&["test", "a"])), Err(TestError::Usage));
    assert_eq!(faux_unix_system::test_cmd::test(&Vec::new()), Err(TestError::NoArguments));
}

#[test]
fn builtin_arguments() {
    let mut ctx = ShellContext::new();
    assert_eq!(exit(&mut ctx, &strings(&["exit", "3"])), Ok(ExitCode::Failure(3)));
    assert_eq!(ctx.do_exit_with, Some(ExitCode::Failure(3)));
    assert_eq!(exit(&mut ctx, &strings(&["exit", "300"])), Err(ShellError::Usage));
    assert_eq!(exit(&mut ctx, &strings(&["exit"])), Ok(ExitCode::Success));

    let (cmd, argv) = exec_args(&strings(&["exec", "-a", "name", "ls", "-l"])).unwrap();
    assert_eq!((cmd.as_str(), argv), ("ls", strings(&["name", "-l"])));
    let (cmd, argv) = exec_args(&strings(&["exec", "ls", "-l"])).unwrap();
    assert_eq!((cmd.as_str(), argv), ("ls", strings(&["ls", "-l"])));
    assert_eq!(exec_args(&strings(&["exec"])).map(|r| r.0), Err(ShellError::Usage));

    let (file, argv) = source_args(&strings(&["source", "f", "x"])).unwrap();
    assert_eq!((file.as_str(), argv), ("f", strings(&["f", "x"])));

    let mut env = VarMap::new();
    assert_eq!(cd_target(&env, &strings(&["cd", "-"])), Err(ShellError::OldPwdUnset));
    record_cd(&mut env, "/a".into(), "/b".into());
    assert_eq!(cd_target(&env, &strings(&["cd", "-"])), Ok(Some("/a".to_string())));
    assert_eq!(env.get("PWD"), Some("/b".to_string()));
    assert_eq!(cd_target(&env, &strings(&["cd"])), Ok(None));

    assign(&mut ctx, &mut env, "PWD".into(), "/c".into());
    assert_eq!(env.get("PWD"), Some("/c".to_string()));
    assert_eq!(ctx.variables.get("PWD"), Some("/c".to_string()));
}

#[test]
fn sh_command_line() {
    assert_eq!(sh_mode(&strings(&["sh"])), Ok(ShMode::Interactive));
    assert_eq!(sh_mode(&strings(&["sh", "-c", "echo hi"])), Ok(ShMode::Command("echo hi".into())));
    assert_eq!(sh_mode(&strings(&["-sh", "-s", "/etc/profile"])), Ok(ShMode::Source("/etc/profile".into())));
    assert_eq!(sh_mode(&strings(&["sh", "run.sh", "a"])), Ok(ShMode::Script("run.sh".into())));
    assert_eq!(sh_mode(&strings(&["sh", "-c"])), Err(ShellError::Usage));
    assert_eq!(sh_mode(&strings(&["sh", "-x"])), Err(ShellError::Usage));
}
