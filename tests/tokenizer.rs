use faux_unix_system::context::ShellContext;
use faux_unix_system::error::ShellError;
use faux_unix_system::iter::ExtendableIterator;
use faux_unix_system::lexer::{TokenizeStep, Tokenizer};
use faux_unix_system::shell::tokenize;
use faux_unix_system::tokens::BasicToken;
use faux_unix_system::vars::VarMap;

fn value(s: &str) -> BasicToken {
    BasicToken::Value(s.to_string())
}

fn lex_with(
    ctx: &mut ShellContext,
    env: &mut VarMap,
    args: &Vec<String>,
    source: &str,
) -> Result<Vec<BasicToken>, ShellError> {
    let mut it = ExtendableIterator::new(source.chars().collect());
    let mut tokenizer = Tokenizer::new();
    match tokenizer.run(ctx, env, args, &mut it)? {
        TokenizeStep::Done(tokens) => Ok(tokens),
        TokenizeStep::Subshell(script) => panic!("unexpected subshell {script}"),
    }
}

fn lex(source: &str) -> Result<Vec<BasicToken>, ShellError> {
    lex_with(&mut ShellContext::new(), &mut VarMap::new(), &Vec::new(), source)
}

#[test]
fn tokenize_source() {
    let source = "echo\thi '|'   there | cowsay";
    let tokens = tokenize(source).unwrap();
    let expected = vec![
        BasicToken::Value("echo".into()),
        BasicToken::Value("hi".into()),
        BasicToken::Value("|".into()),
        BasicToken::Value("there".into()),
        BasicToken::Pipe,
        BasicToken::Value("cowsay".into()),
    ];
    assert_eq!(tokens, expected);
}

#[test]
fn plain_tokenizer_rejects_open_quote() {
    assert_eq!(tokenize("echo 'oops"), Err(ShellError::MismatchedQuote));
    assert_eq!(tokenize("echo ''"), Ok(vec![value("echo"), value("")]));
}

#[test]
fn variables() {
    let mut ctx = ShellContext::new();
    let mut env = VarMap::new();
    env.insert("foo".into(), "FOO".into());
    env.insert("bar".into(), "BAR".into());
    env.insert("baz".into(), "BAZ".into());
    let tokens = lex_with(&mut ctx, &mut env, &Vec::new(), "echo ${foo} ${bar}${baz}").unwrap();
    let expected = vec![
        BasicToken::Value("echo".into()),
        BasicToken::Value("FOO".into()),
        BasicToken::Value("BARBAZ".into()),
    ];
    assert_eq!(tokens, expected);
}

#[test]
fn tokenize_pipe() {
    let tokens = lex("echo\thi '|'   there | cowsay").unwrap();
    let expected = vec![
        BasicToken::Value("echo".into()),
        BasicToken::Value("hi".into()),
        BasicToken::Value("|".into()),
        BasicToken::Value("there".into()),
        BasicToken::Pipe,
        BasicToken::Value("cowsay".into()),
    ];
    assert_eq!(tokens, expected);
}

#[test]
fn tokenize_fileio() {
    let tokens = lex("fortune >> waa").unwrap();
    let expected = vec![
        BasicToken::Value("fortune".into()),
        BasicToken::FileRedirectOut { append: true },
        BasicToken::Value("waa".into()),
    ];
    assert_eq!(tokens, expected);

    let tokens = lex("fortune > waa").unwrap();
    let expected = vec![
        BasicToken::Value("fortune".into()),
        BasicToken::FileRedirectOut { append: false },
        BasicToken::Value("waa".into()),
    ];
    assert_eq!(tokens, expected);
}

#[test]
fn three_redirect_characters_are_an_error() {
    assert_eq!(lex("fortune >>> waa"), Err(ShellError::UnexpectedRedirect));
    let tokens = lex("fortune > > waa").unwrap();
    assert_eq!(
        tokens,
        vec![
            value("fortune"),
            BasicToken::FileRedirectOut { append: false },
            BasicToken::FileRedirectOut { append: false },
            value("waa")
        ]
    );
}

#[test]
fn operators() {
    assert_eq!(
        lex("a && b || c < d").unwrap(),
        vec![
            value("a"),
            BasicToken::And,
            value("b"),
            BasicToken::Or,
            value("c"),
            BasicToken::FileRedirectIn,
            value("d")
        ]
    );
    assert_eq!(lex("a & b"), Err(ShellError::BackgroundTask));
    assert_eq!(lex("a |||"), Err(ShellError::UnexpectedPipe));
    assert_eq!(lex("echo \"open"), Err(ShellError::MismatchedQuote));
}

#[test]
fn quoted_expansion_keeps_whitespace() {
    let mut ctx = ShellContext::new();
    let mut env = VarMap::new();
    env.insert("foo".into(), "y'all\tare ugly".into());
    let quoted = lex_with(&mut ctx, &mut env, &Vec::new(), "echo \"${foo}\"").unwrap();
    assert_eq!(quoted, vec![value("echo"), value("y'all\tare ugly")]);
    let bare = lex_with(&mut ctx, &mut env, &Vec::new(), "echo ${foo}").unwrap();
    assert_eq!(bare, vec![value("echo"), value("y'all"), value("are"), value("ugly")]);
    assert_eq!(bare[1..].iter().map(|t| match t {
        BasicToken::Value(v) => v.clone(),
        _ => String::new(),
    }).collect::<Vec<_>>().join(" "), "y'all are ugly");
}

#[test]
fn environment_wins_over_shell_variables() {
    let mut ctx = ShellContext::new();
    ctx.variables.insert("foo".into(), "local".into());
    let mut env = VarMap::new();
    env.insert("foo".into(), "exported".into());
    let tokens = lex_with(&mut ctx, &mut env, &Vec::new(), "echo ${foo}").unwrap();
    assert_eq!(tokens, vec![value("echo"), value("exported")]);
}

#[test]
fn positional_arguments() {
    let args: Vec<String> = vec!["sh".into(), "one".into(), "two".into()];
    let tokens = lex_with(
        &mut ShellContext::new(),
        &mut VarMap::new(),
        &args,
        "echo ${1} \"${@}\" ${+2} ${7} ${x}",
    )
    .unwrap();
    assert_eq!(tokens, vec![value("echo"), value("one"), value("one two"), value("two")]);
}

#[test]
fn assignment_binds_variable() {
    let mut ctx = ShellContext::new();
    let mut env = VarMap::new();
    env.insert("PATH".into(), "/bin".into());
    let tokens = lex_with(&mut ctx, &mut env, &Vec::new(), "foo=bar echo").unwrap();
    assert_eq!(tokens, vec![value("echo")]);
    assert_eq!(ctx.variables.get("foo"), Some("bar".to_string()));
    assert_eq!(env.get("foo"), None);
    lex_with(&mut ctx, &mut env, &Vec::new(), "PATH=/usr/bin").unwrap();
    assert_eq!(env.get("PATH"), Some("/usr/bin".to_string()));
}

#[test]
fn home_comments_and_escapes() {
    let mut env = VarMap::new();
    env.insert("HOME".into(), "/root".into());
    let tokens = lex_with(&mut ShellContext::new(), &mut env, &Vec::new(), "cd ~/x ~ # gone").unwrap();
    assert_eq!(tokens, vec![value("cd"), value("/root/x"), value("/root")]);
    let tokens = lex("echo ~").unwrap();
    assert_eq!(tokens, vec![value("echo"), value("~")]);
    let tokens = lex("echo a\\ b\\\nc").unwrap();
    assert_eq!(tokens, vec![value("echo"), value("a bc")]);
}

#[test]
fn statements_end_at_newline_and_semicolon() {
    let mut ctx = ShellContext::new();
    let mut env = VarMap::new();
    let mut it = ExtendableIterator::new("a; b\nc".chars().collect());
    let mut seen = Vec::new();
    while !it.is_empty() {
        let mut t = Tokenizer::new();
        match t.run(&mut ctx, &mut env, &Vec::new(), &mut it).unwrap() {
            TokenizeStep::Done(tokens) => seen.push(tokens),
            TokenizeStep::Subshell(_) => panic!(),
        }
    }
    assert_eq!(seen, vec![vec![value("a")], vec![value("b")], vec![value("c")]]);
}

#[test]
fn subshell_output_is_inserted() {
    let mut ctx = ShellContext::new();
    let mut env = VarMap::new();
    let mut it = ExtendableIterator::new("echo $(pwd)x".chars().collect());
    let mut t = Tokenizer::new();
    match t.run(&mut ctx, &mut env, &Vec::new(), &mut it).unwrap() {
        TokenizeStep::Subshell(script) => assert_eq!(script, "pwd"),
        TokenizeStep::Done(_) => panic!(),
    }
    t.resume(&mut it, "/a b|c").unwrap();
    match t.run(&mut ctx, &mut env, &Vec::new(), &mut it).unwrap() {
        TokenizeStep::Done(tokens) => {
            assert_eq!(tokens, vec![value("echo"), value("/a"), value("b|cx")])
        }
        TokenizeStep::Subshell(_) => panic!(),
    }
}

#[test]
fn dollar_errors() {
    assert_eq!(lex("echo $"), Err(ShellError::NoIdentifier));
    assert_eq!(lex("echo $x"), Err(ShellError::UnsupportedExpansion));
    assert_eq!(lex("echo ${x"), Err(ShellError::BraceMismatch));
}

#[test]
fn tilde_inside_a_word_stays() {
    let mut env = VarMap::new();
    env.insert("HOME".into(), "/root".into());
    let tokens = lex_with(&mut ShellContext::new(), &mut env, &Vec::new(), "echo ~foo a~ \"~\"").unwrap();
    assert_eq!(tokens, vec![value("echo"), value("~foo"), value("a~"), value("/root")]);
}

#[test]
fn positional_arguments_come_from_the_running_shell() {
    let outer: Vec<String> = vec!["sh".into()];
    let tokens = lex_with(&mut ShellContext::new(), &mut VarMap::new(), &outer, "echo -- ${2}").unwrap();
    assert_eq!(tokens, vec![value("echo"), value("--")]);
    let inner: Vec<String> = vec!["sh".into(), "-c".into(), "x".into()];
    let tokens = lex_with(&mut ShellContext::new(), &mut VarMap::new(), &inner, "echo -- ${2}").unwrap();
    assert_eq!(tokens, vec![value("echo"), value("--"), value("x")]);
}

#[test]
fn home_text_starts_no_expansion() {
    let mut env = VarMap::new();
    env.insert("HOME".into(), " ~ ${x}".into());
    let tokens = lex_with(&mut ShellContext::new(), &mut env, &Vec::new(), "echo ~").unwrap();
    assert_eq!(tokens, vec![value("echo"), value("~"), value("${x}")]);
}

#[test]
fn only_unquoted_identifiers_assign() {
    let mut ctx = ShellContext::new();
    let mut env = VarMap::new();
    let none: Vec<String> = Vec::new();
    assert_eq!(lex_with(&mut ctx, &mut env, &none, "'a=b' x").unwrap(), vec![value("a=b"), value("x")]);
    assert_eq!(lex_with(&mut ctx, &mut env, &none, "1=2").unwrap(), vec![value("1=2")]);
    assert_eq!(lex_with(&mut ctx, &mut env, &none, "=x").unwrap(), vec![value("=x")]);
    assert_eq!(lex_with(&mut ctx, &mut env, &none, "\"a\"=b").unwrap(), vec![value("a"), value("=b")]);
    assert_eq!(ctx.variables.get("a"), None);
    assert_eq!(lex_with(&mut ctx, &mut env, &none, "foo_1=\"x y\" cmd").unwrap(), vec![value("cmd")]);
    assert_eq!(ctx.variables.get("foo_1"), Some("x y".to_string()));
}
