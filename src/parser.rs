//! Builds the syntax tree of one statement from its tokens.
use crate::error::ShellError;
use crate::tokens::{lexemes, words, Ast, BasicToken, Lexeme, Token};
use vstd::prelude::*;
use vstd::string::*;

verus! {

/// Adds a word to the tree folded so far: to the last command, or as the
/// target of a redirect that has none yet.
pub open spec fn add_word(root: Ast, w: Seq<char>) -> Option<Ast> {
    match root {
        Ast::Command(a) => Some(Ast::Command(a.push(w))),
        Ast::Pipe(l, r) => match *r {
            Ast::Command(a) => Some(Ast::Pipe(l, Box::new(Ast::Command(a.push(w))))),
            _ => None,
        },
        Ast::Out(lhs, append, path) => if path.len() == 0 {
            Some(Ast::Out(lhs, append, w))
        } else {
            match *lhs {
                Ast::Command(a) => Some(Ast::Out(Box::new(Ast::Command(a.push(w))), append, path)),
                _ => None,
            }
        },
        Ast::In(lhs, path) => if path.len() == 0 {
            Some(Ast::In(lhs, w))
        } else {
            match *lhs {
                Ast::Command(a) => Some(Ast::In(Box::new(Ast::Command(a.push(w))), path)),
                _ => None,
            }
        },
        _ => None,
    }
}

/// Folds the tokens left to right onto `root`. `&&` and `||` take what was
/// folded so far as their left side and the parse of all the rest as their
/// right side; `None` is a syntax error.
pub open spec fn fold_tokens(root: Ast, t: Seq<Lexeme>) -> Option<Ast>
    decreases t.len(),
{
    if t.len() == 0 {
        Some(root)
    } else {
        let rest = t.drop_first();
        match t[0] {
            Lexeme::And => match fold_tokens(Ast::Command(seq![]), rest) {
                Some(r) => Some(Ast::And(Box::new(root), Box::new(r))),
                None => None,
            },
            Lexeme::Or => match fold_tokens(Ast::Command(seq![]), rest) {
                Some(r) => Some(Ast::Or(Box::new(root), Box::new(r))),
                None => None,
            },
            Lexeme::Pipe => fold_tokens(Ast::Pipe(Box::new(root), Box::new(Ast::Command(seq![]))), rest),
            Lexeme::Out(append) => fold_tokens(Ast::Out(Box::new(root), append, seq![]), rest),
            Lexeme::In => fold_tokens(Ast::In(Box::new(root), seq![]), rest),
            Lexeme::Word(w) => match add_word(root, w) {
                Some(r) => fold_tokens(r, rest),
                None => None,
            },
        }
    }
}

/// Some redirect in the tree has no target.
pub open spec fn lacks_target(a: Ast) -> bool
    decreases a,
{
    match a {
        Ast::And(l, r) => lacks_target(*l) || lacks_target(*r),
        Ast::Or(l, r) => lacks_target(*l) || lacks_target(*r),
        Ast::Pipe(l, r) => lacks_target(*l) || lacks_target(*r),
        Ast::Out(l, _, path) => path.len() == 0 || lacks_target(*l),
        Ast::In(l, path) => path.len() == 0 || lacks_target(*l),
        Ast::Command(_) => false,
    }
}

/// The tree of a token sequence, or `None` on a syntax error: a word where
/// none can go, or a redirect without a target.
pub open spec fn parse_spec(t: Seq<Lexeme>) -> Option<Ast> {
    match fold_tokens(Ast::Command(seq![]), t) {
        Some(a) => if lacks_target(a) {
            None
        } else {
            Some(a)
        },
        None => None,
    }
}

/// The tokens of a pipeline: each command's words, with a pipe between
/// commands.
pub open spec fn pipeline_tokens(cmds: Seq<Seq<Seq<char>>>) -> Seq<Lexeme>
    decreases cmds.len(),
{
    if cmds.len() == 0 {
        seq![]
    } else if cmds.len() == 1 {
        word_tokens(cmds[0])
    } else {
        pipeline_tokens(cmds.drop_last()) + seq![Lexeme::Pipe] + word_tokens(cmds.last())
    }
}

/// Words as tokens.
pub open spec fn word_tokens(ws: Seq<Seq<char>>) -> Seq<Lexeme> {
    ws.map_values(|w: Seq<char>| Lexeme::Word(w))
}

/// The tree of a pipeline, nested on the left: each pipe has what came
/// before it on its left and one command on its right.
pub open spec fn pipeline_tree(cmds: Seq<Seq<Seq<char>>>) -> Ast
    decreases cmds.len(),
{
    if cmds.len() <= 1 {
        Ast::Command(if cmds.len() == 1 { cmds[0] } else { seq![] })
    } else {
        Ast::Pipe(Box::new(pipeline_tree(cmds.drop_last())), Box::new(Ast::Command(cmds.last())))
    }
}

proof fn lemma_fold_words(l: Option<Ast>, a: Seq<Seq<char>>, ws: Seq<Seq<char>>, rest: Seq<Lexeme>)
    ensures
        fold_tokens(
            match l {
                Some(x) => Ast::Pipe(Box::new(x), Box::new(Ast::Command(a))),
                None => Ast::Command(a),
            },
            word_tokens(ws) + rest,
        ) == fold_tokens(
            match l {
                Some(x) => Ast::Pipe(Box::new(x), Box::new(Ast::Command(a + ws))),
                None => Ast::Command(a + ws),
            },
            rest,
        ),
    decreases ws.len(),
{
    if ws.len() == 0 {
        assert(word_tokens(ws) + rest =~= rest);
        assert(a + ws =~= a);
    } else {
        let t = word_tokens(ws) + rest;
        assert(t[0] == Lexeme::Word(ws[0]));
        assert(t.drop_first() =~= word_tokens(ws.drop_first()) + rest);
        lemma_fold_words(l, a.push(ws[0]), ws.drop_first(), rest);
        assert(a.push(ws[0]) + ws.drop_first() =~= a + ws);
    }
}

proof fn lemma_fold_pipeline(cmds: Seq<Seq<Seq<char>>>, rest: Seq<Lexeme>)
    requires
        cmds.len() >= 1,
    ensures
        fold_tokens(Ast::Command(seq![]), pipeline_tokens(cmds) + rest) == fold_tokens(pipeline_tree(cmds), rest),
        !lacks_target(pipeline_tree(cmds)),
    decreases cmds.len(),
{
    if cmds.len() == 1 {
        lemma_fold_words(None, seq![], cmds[0], rest);
        assert(Seq::<Seq<char>>::empty() + cmds[0] =~= cmds[0]);
        assert(pipeline_tree(cmds) == Ast::Command(cmds[0]));
    } else {
        let last = cmds.last();
        let rest2 = seq![Lexeme::Pipe] + word_tokens(last) + rest;
        lemma_fold_pipeline(cmds.drop_last(), rest2);
        assert(pipeline_tokens(cmds) + rest =~= pipeline_tokens(cmds.drop_last()) + rest2);
        let left = pipeline_tree(cmds.drop_last());
        assert(rest2[0] == Lexeme::Pipe);
        assert(rest2.drop_first() =~= word_tokens(last) + rest);
        lemma_fold_words(Some(left), seq![], last, rest);
        assert(Seq::<Seq<char>>::empty() + last =~= last);
        assert(!lacks_target(Ast::Command(last)));
        assert(pipeline_tree(cmds) == Ast::Pipe(Box::new(left), Box::new(Ast::Command(last))));
    }
}

/// Pipes associate to the left, for any number of commands of any words:
/// the tokens of `c0 | c1 | ... | cn` parse to a tree nested on the left,
/// with each command on the right of its pipe.
pub proof fn lemma_pipeline_nests_left(cmds: Seq<Seq<Seq<char>>>)
    requires
        cmds.len() >= 1,
    ensures
        parse_spec(pipeline_tokens(cmds)) == Some(pipeline_tree(cmds)),
{
    lemma_fold_pipeline(cmds, seq![]);
    assert(pipeline_tokens(cmds) + Seq::<Lexeme>::empty() =~= pipeline_tokens(cmds));
}

fn missing_target(t: &Token) -> (r: bool)
    ensures
        r == lacks_target(t@),
    decreases t,
{
    match t {
        Token::And(l, r) => missing_target(l) || missing_target(r),
        Token::Or(l, r) => missing_target(l) || missing_target(r),
        Token::Pipe(l, r) => missing_target(l) || missing_target(r),
        Token::FileRedirectOut { lhs, append: _, path } => path.as_str().unicode_len() == 0 || missing_target(lhs),
        Token::FileRedirectIn { lhs, path } => path.as_str().unicode_len() == 0 || missing_target(lhs),
        Token::Command(_) => false,
    }
}

fn add_value(root: Token, w: String) -> (r: Result<Token, ShellError>)
    ensures
        match r {
            Ok(t) => add_word(root@, w@) == Some(t@),
            Err(e) => add_word(root@, w@) is None && e == ShellError::RedirectLhsNotCommand,
        },
{
    let ghost wv = w@;
    let ghost rv = root@;
    match root {
        Token::Command(mut a) => {
            let ghost a0 = a@;
            assert(rv == Ast::Command(words(a0)));
            a.push(w);
            assert(words(a@) =~= words(a0).push(wv));
            let res = Token::Command(a);
            assert(res@ == Ast::Command(words(a0).push(wv)));
            Ok(res)
        },
        Token::Pipe(l, r) => {
            let ghost lv = (*l)@;
            assert(rv == Ast::Pipe(Box::new(lv), Box::new((*r)@)));
            match *r {
                Token::Command(mut a) => {
                    let ghost a0 = a@;
                    a.push(w);
                    assert(words(a@) =~= words(a0).push(wv));
                    let inner = Token::Command(a);
                    assert(inner@ == Ast::Command(words(a0).push(wv)));
                    let res = Token::Pipe(l, Box::new(inner));
                    assert(res@ == Ast::Pipe(Box::new(lv), Box::new(Ast::Command(words(a0).push(wv)))));
                    Ok(res)
                },
                Token::And(x, y) => Err(ShellError::RedirectLhsNotCommand),
                Token::Or(x, y) => Err(ShellError::RedirectLhsNotCommand),
                Token::Pipe(x, y) => Err(ShellError::RedirectLhsNotCommand),
                Token::FileRedirectOut { .. } => Err(ShellError::RedirectLhsNotCommand),
                Token::FileRedirectIn { .. } => Err(ShellError::RedirectLhsNotCommand),
            }
        },
        Token::FileRedirectOut { lhs, append, path } => {
            let ghost lv = (*lhs)@;
            assert(rv == Ast::Out(Box::new(lv), append, path@));
            if path.as_str().unicode_len() == 0 {
                let res = Token::FileRedirectOut { lhs, append, path: w };
                assert(res@ == Ast::Out(Box::new(lv), append, wv));
                Ok(res)
            } else {
                match *lhs {
                    Token::Command(mut a) => {
                        let ghost a0 = a@;
                        a.push(w);
                        assert(words(a@) =~= words(a0).push(wv));
                        let inner = Token::Command(a);
                        assert(inner@ == Ast::Command(words(a0).push(wv)));
                        let res = Token::FileRedirectOut { lhs: Box::new(inner), append, path };
                        assert(res@ == Ast::Out(Box::new(Ast::Command(words(a0).push(wv))), append, path@));
                        Ok(res)
                    },
                    Token::And(x, y) => Err(ShellError::RedirectLhsNotCommand),
                    Token::Or(x, y) => Err(ShellError::RedirectLhsNotCommand),
                    Token::Pipe(x, y) => Err(ShellError::RedirectLhsNotCommand),
                    Token::FileRedirectOut { .. } => Err(ShellError::RedirectLhsNotCommand),
                    Token::FileRedirectIn { .. } => Err(ShellError::RedirectLhsNotCommand),
                }
            }
        },
        Token::FileRedirectIn { lhs, path } => {
            let ghost lv = (*lhs)@;
            assert(rv == Ast::In(Box::new(lv), path@));
            if path.as_str().unicode_len() == 0 {
                let res = Token::FileRedirectIn { lhs, path: w };
                assert(res@ == Ast::In(Box::new(lv), wv));
                Ok(res)
            } else {
                match *lhs {
                    Token::Command(mut a) => {
                        let ghost a0 = a@;
                        a.push(w);
                        assert(words(a@) =~= words(a0).push(wv));
                        let inner = Token::Command(a);
                        assert(inner@ == Ast::Command(words(a0).push(wv)));
                        let res = Token::FileRedirectIn { lhs: Box::new(inner), path };
                        assert(res@ == Ast::In(Box::new(Ast::Command(words(a0).push(wv))), path@));
                        Ok(res)
                    },
                    Token::And(x, y) => Err(ShellError::RedirectLhsNotCommand),
                    Token::Or(x, y) => Err(ShellError::RedirectLhsNotCommand),
                    Token::Pipe(x, y) => Err(ShellError::RedirectLhsNotCommand),
                    Token::FileRedirectOut { .. } => Err(ShellError::RedirectLhsNotCommand),
                    Token::FileRedirectIn { .. } => Err(ShellError::RedirectLhsNotCommand),
                }
            }
        },
        Token::And(x, y) => Err(ShellError::RedirectLhsNotCommand),
        Token::Or(x, y) => Err(ShellError::RedirectLhsNotCommand),
    }
}

fn fold_from(root0: Token, tokens: &Vec<BasicToken>, start: usize) -> (r: Result<Token, ShellError>)
    requires
        start <= tokens@.len(),
    ensures
        match r {
            Ok(t) => fold_tokens(root0@, lexemes(tokens@).subrange(start as int, tokens@.len() as int)) == Some(t@),
            Err(e) => fold_tokens(root0@, lexemes(tokens@).subrange(start as int, tokens@.len() as int)) is None,
        },
    decreases tokens@.len() - start,
{
    let ghost all = lexemes(tokens@);
    let ghost len = tokens@.len() as int;
    let mut root = root0;
    let mut i = start;
    let ghost target = fold_tokens(root@, all.subrange(start as int, len));
    assert(target == fold_tokens(root0@, lexemes(tokens@).subrange(start as int, tokens@.len() as int)));
    while i < tokens.len()
        invariant
            start <= i <= len,
            len == tokens@.len(),
            all == lexemes(tokens@),
            target == fold_tokens(root@, all.subrange(i as int, len)),
            target == fold_tokens(root0@, all.subrange(start as int, len)),
        decreases len - i,
    {
        let ghost t = all.subrange(i as int, len);
        assert(t[0] == tokens@[i as int]@);
        assert(t.drop_first() =~= all.subrange(i + 1, len));
        match &tokens[i] {
            BasicToken::And => {
                let rhs = fold_from(Token::Command(Vec::new()), tokens, i + 1);
                assert(words(Seq::<String>::empty()) =~= Seq::<Seq<char>>::empty());
                match rhs {
                    Ok(r) => {
                        return Ok(Token::And(Box::new(root), Box::new(r)));
                    },
                    Err(e) => {
                        return Err(e);
                    },
                }
            },
            BasicToken::Or => {
                let rhs = fold_from(Token::Command(Vec::new()), tokens, i + 1);
                assert(words(Seq::<String>::empty()) =~= Seq::<Seq<char>>::empty());
                match rhs {
                    Ok(r) => {
                        return Ok(Token::Or(Box::new(root), Box::new(r)));
                    },
                    Err(e) => {
                        return Err(e);
                    },
                }
            },
            BasicToken::Pipe => {
                let inner = Token::Command(Vec::new());
                assert(words(Seq::<String>::empty()) =~= Seq::<Seq<char>>::empty());
                assert(inner@ == Ast::Command(seq![]));
                root = Token::Pipe(Box::new(root), Box::new(inner));
            },
            BasicToken::FileRedirectOut { append } => {
                root = Token::FileRedirectOut { lhs: Box::new(root), append: *append, path: String::new() };
            },
            BasicToken::FileRedirectIn => {
                root = Token::FileRedirectIn { lhs: Box::new(root), path: String::new() };
            },
            BasicToken::Value(v) => {
                match add_value(root, v.clone()) {
                    Ok(r) => {
                        root = r;
                    },
                    Err(e) => {
                        return Err(e);
                    },
                }
            },
        }
        i = i + 1;
    }
    assert(all.subrange(i as int, len).len() == 0);
    Ok(root)
}

/// Parse the tokens of one statement into a syntax tree.
pub fn parse(tokens: Vec<BasicToken>) -> (r: Result<Token, ShellError>)
    ensures
        match r {
            Ok(t) => parse_spec(lexemes(tokens@)) == Some(t@),
            Err(e) => parse_spec(lexemes(tokens@)) is None,
        },
{
    assert(words(Seq::<String>::empty()) =~= Seq::<Seq<char>>::empty());
    let r = fold_from(Token::Command(Vec::new()), &tokens, 0);
    assert(lexemes(tokens@).subrange(0, tokens@.len() as int) =~= lexemes(tokens@));
    match r {
        Ok(t) => {
            if missing_target(&t) {
                Err(ShellError::MissingRedirectTarget)
            } else {
                Ok(t)
            }
        },
        Err(e) => Err(e),
    }
}

} // verus!
