use faux_unix_system::error::ShellError;
use faux_unix_system::exit_code::ExitCode;
use faux_unix_system::iter::ExtendableIterator;
use faux_unix_system::script::{
    after_line, after_statement, drop_line, is_blank, LineAction, LineEnd, Notice, ScriptStep, StatementEnd,
};

#[test]
fn statements_decide_what_comes_next() {
    let (print, step) = after_statement(ExitCode::Success, StatementEnd::Failed, None);
    assert!(print);
    assert!(matches!(step, ScriptStep::Next(ExitCode::Failure(1))));
    let (print, step) = after_statement(ExitCode::Failure(2), StatementEnd::Empty, None);
    assert!(!print);
    assert!(matches!(step, ScriptStep::Next(ExitCode::Failure(2))));
    let (_, step) = after_statement(ExitCode::Success, StatementEnd::Done(ExitCode::Failure(4)), None);
    assert!(matches!(step, ScriptStep::Next(ExitCode::Failure(4))));
    let (_, step) = after_statement(ExitCode::Success, StatementEnd::Done(ExitCode::Success), Some(ExitCode::Failure(3)));
    assert!(matches!(step, ScriptStep::Return(Ok(ExitCode::Failure(3)))));
    let (print, step) = after_statement(ExitCode::Success, StatementEnd::Interrupted, Some(ExitCode::Success));
    assert!(!print);
    assert!(matches!(step, ScriptStep::Return(Err(ShellError::Interrupt))));
}

#[test]
fn a_failed_line_is_dropped() {
    let mut it = ExtendableIterator::new("bad 'line\nnext".chars().collect());
    drop_line(&mut it);
    let rest: Vec<char> = std::iter::from_fn(|| it.next()).collect();
    assert_eq!(rest.into_iter().collect::<String>(), "next");
}

#[test]
fn interactive_lines_decide_what_comes_next() {
    assert_eq!(after_line(LineEnd::ReadFailed, Some(ExitCode::Success)), (Notice::ReadError, LineAction::Continue));
    assert_eq!(after_line(LineEnd::ReadAborted, None), (Notice::NewLine, LineAction::Continue));
    assert_eq!(after_line(LineEnd::Blank, None), (Notice::Nothing, LineAction::Continue));
    assert_eq!(after_line(LineEnd::Ran(true), None), (Notice::Error, LineAction::Continue));
    assert_eq!(
        after_line(LineEnd::Ran(false), Some(ExitCode::Failure(2))),
        (Notice::Nothing, LineAction::Exit(ExitCode::Failure(2)))
    );
    assert!(is_blank(" \t\n"));
    assert!(!is_blank(" x "));
}
