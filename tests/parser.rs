use faux_unix_system::error::ShellError;
use faux_unix_system::parser::parse;
use faux_unix_system::shell::tokenize;
use faux_unix_system::tokens::{BasicToken, Token};

fn words(t: &Token) -> Vec<String> {
    match t {
        Token::Command(args) => args.clone(),
        _ => panic!("not a command: {t:?}"),
    }
}

#[test]
fn pipes_associate_to_the_left() {
    let tree = parse(tokenize("a | b | c").unwrap()).unwrap();
    match tree {
        Token::Pipe(lhs, rhs) => {
            assert_eq!(words(&rhs), vec!["c".to_string()]);
            match *lhs {
                Token::Pipe(a, b) => {
                    assert_eq!(words(&a), vec!["a".to_string()]);
                    assert_eq!(words(&b), vec!["b".to_string()]);
                }
                other => panic!("expected a pipe, got {other:?}"),
            }
        }
        other => panic!("expected a pipe, got {other:?}"),
    }
}

#[test]
fn and_takes_the_rest_as_right_side() {
    let tokens = vec![
        BasicToken::Value("a".into()),
        BasicToken::And,
        BasicToken::Value("b".into()),
        BasicToken::Or,
        BasicToken::Value("c".into()),
    ];
    match parse(tokens).unwrap() {
        Token::And(lhs, rhs) => {
            assert_eq!(words(&lhs), vec!["a".to_string()]);
            match *rhs {
                Token::Or(b, c) => {
                    assert_eq!(words(&b), vec!["b".to_string()]);
                    assert_eq!(words(&c), vec!["c".to_string()]);
                }
                other => panic!("{other:?}"),
            }
        }
        other => panic!("{other:?}"),
    }
}

#[test]
fn redirect_takes_path_then_more_words() {
    let tokens = vec![
        BasicToken::Value("fortune".into()),
        BasicToken::FileRedirectOut { append: true },
        BasicToken::Value("file".into()),
        BasicToken::Value("-s".into()),
    ];
    match parse(tokens).unwrap() {
        Token::FileRedirectOut { lhs, append, path } => {
            assert!(append);
            assert_eq!(path, "file");
            assert_eq!(words(&lhs), vec!["fortune".to_string(), "-s".to_string()]);
        }
        other => panic!("{other:?}"),
    }
}

#[test]
fn redirect_of_a_pipe_takes_no_more_words() {
    let tokens = vec![
        BasicToken::Value("a".into()),
        BasicToken::Pipe,
        BasicToken::Value("b".into()),
        BasicToken::FileRedirectIn,
        BasicToken::Value("f".into()),
        BasicToken::Value("x".into()),
    ];
    assert!(parse(tokens).is_err());
}

#[test]
fn empty_input_is_an_empty_command() {
    assert!(words(&parse(Vec::new()).unwrap()).is_empty());
}

#[test]
fn redirect_without_target_is_an_error() {
    let tokens = vec![BasicToken::Value("a".into()), BasicToken::FileRedirectOut { append: false }];
    assert_eq!(parse(tokens).map(|_| ()), Err(ShellError::MissingRedirectTarget));
    let tokens = vec![
        BasicToken::Value("a".into()),
        BasicToken::FileRedirectIn,
        BasicToken::And,
        BasicToken::Value("b".into()),
    ];
    assert!(parse(tokens).is_err());
}
