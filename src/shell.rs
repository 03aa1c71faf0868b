//! The tokenizer of the minimal shell: words, quotes and pipes only.
use crate::error::ShellError;
use crate::lexer::QuoteType;
use crate::text::{chars_of, string_of};
use crate::tokens::{lexemes, BasicToken, Lexeme};
use vstd::prelude::*;

verus! {

/// The state of the minimal tokenizer: quote, tokens so far, pending word.
pub struct PlainState {
    pub quote: QuoteType,
    pub tokens: Seq<Lexeme>,
    pub buffer: Seq<char>,
}

/// The pending word, if any, becomes a token.
pub open spec fn plain_flush(s: PlainState) -> PlainState {
    if s.buffer.len() > 0 {
        PlainState { tokens: s.tokens.push(Lexeme::Word(s.buffer)), buffer: seq![], ..s }
    } else {
        s
    }
}

/// Reads one character. Outside quotes a space, tab or newline ends a word
/// and `|` also gives a pipe; a closing quote gives the quoted word, even an
/// empty one; any other character joins the word.
pub open spec fn plain_step(s: PlainState, c: char) -> PlainState {
    match s.quote {
        QuoteType::Unquoted => if c == '\'' {
            PlainState { quote: QuoteType::Single, ..s }
        } else if c == '"' {
            PlainState { quote: QuoteType::Double, ..s }
        } else if c == ' ' || c == '\n' || c == '\t' || c == '|' {
            let f = plain_flush(s);
            if c == '|' {
                PlainState { tokens: f.tokens.push(Lexeme::Pipe), ..f }
            } else {
                f
            }
        } else {
            PlainState { buffer: s.buffer.push(c), ..s }
        },
        QuoteType::Single => if c == '\'' {
            PlainState { quote: QuoteType::Unquoted, tokens: s.tokens.push(Lexeme::Word(s.buffer)), buffer: seq![] }
        } else {
            PlainState { buffer: s.buffer.push(c), ..s }
        },
        QuoteType::Double => if c == '"' {
            PlainState { quote: QuoteType::Unquoted, tokens: s.tokens.push(Lexeme::Word(s.buffer)), buffer: seq![] }
        } else {
            PlainState { buffer: s.buffer.push(c), ..s }
        },
    }
}

/// The state after reading all of `input`.
pub open spec fn plain_run(s: PlainState, input: Seq<char>) -> PlainState
    decreases input.len(),
{
    if input.len() == 0 {
        s
    } else {
        plain_run(plain_step(s, input[0]), input.drop_first())
    }
}

/// The tokens of `input`, or `None` when a quote is left open.
pub open spec fn plain_tokens(input: Seq<char>) -> Option<Seq<Lexeme>> {
    let s = plain_run(PlainState { quote: QuoteType::Unquoted, tokens: seq![], buffer: seq![] }, input);
    if s.quote == QuoteType::Unquoted {
        Some(plain_flush(s).tokens)
    } else {
        None
    }
}

/// Split a command line of the minimal shell into words and pipes.
pub fn tokenize(source: &str) -> (r: Result<Vec<BasicToken>, ShellError>)
    ensures
        match plain_tokens(source@) {
            Some(t) => r is Ok && lexemes(r->Ok_0@) == t,
            None => r == Err::<Vec<BasicToken>, ShellError>(ShellError::MismatchedQuote),
        },
{
    let input = chars_of(source);
    let mut quote = QuoteType::Unquoted;
    let mut tokens: Vec<BasicToken> = Vec::new();
    let mut buffer: Vec<char> = Vec::new();
    let ghost init = PlainState { quote: QuoteType::Unquoted, tokens: seq![], buffer: seq![] };
    assert(lexemes(tokens@) =~= Seq::<Lexeme>::empty());
    assert(input@.subrange(0, input@.len() as int) =~= input@);
    let mut i: usize = 0;
    while i < input.len()
        invariant
            i <= input@.len(),
            input@ == source@,
            plain_run(init, input@) == plain_run(
                PlainState { quote, tokens: lexemes(tokens@), buffer: buffer@ },
                input@.subrange(i as int, input@.len() as int),
            ),
        decreases input@.len() - i,
    {
        let c = input[i];
        let ghost cur = PlainState { quote, tokens: lexemes(tokens@), buffer: buffer@ };
        let ghost rest = input@.subrange(i as int, input@.len() as int);
        assert(rest[0] == c);
        assert(rest.drop_first() =~= input@.subrange(i + 1, input@.len() as int));
        let ghost t0 = lexemes(tokens@);
        match quote {
            QuoteType::Unquoted => {
                if c == '\'' {
                    quote = QuoteType::Single;
                } else if c == '"' {
                    quote = QuoteType::Double;
                } else if c == ' ' || c == '\n' || c == '\t' || c == '|' {
                    if buffer.len() > 0 {
                        tokens.push(BasicToken::Value(string_of(&buffer)));
                        buffer = Vec::new();
                    }
                    let ghost t1 = lexemes(tokens@);
                    if c == '|' {
                        tokens.push(BasicToken::Pipe);
                    }
                    assert(t1 =~= plain_flush(cur).tokens);
                    assert(lexemes(tokens@) =~= plain_step(cur, c).tokens);
                } else {
                    buffer.push(c);
                }
            },
            _ => {
                let closing = match quote {
                    QuoteType::Single => '\'',
                    _ => '"',
                };
                if c == closing {
                    tokens.push(BasicToken::Value(string_of(&buffer)));
                    buffer = Vec::new();
                    quote = QuoteType::Unquoted;
                    assert(lexemes(tokens@) =~= t0.push(Lexeme::Word(cur.buffer)));
                } else {
                    buffer.push(c);
                }
            },
        }
        assert(PlainState { quote, tokens: lexemes(tokens@), buffer: buffer@ } == plain_step(cur, c));
        i = i + 1;
    }
    let ghost fin = PlainState { quote, tokens: lexemes(tokens@), buffer: buffer@ };
    assert(plain_run(init, input@) == fin);
    if quote != QuoteType::Unquoted {
        return Err(ShellError::MismatchedQuote);
    }
    if buffer.len() > 0 {
        let ghost t0 = lexemes(tokens@);
        tokens.push(BasicToken::Value(string_of(&buffer)));
        assert(lexemes(tokens@) =~= t0.push(Lexeme::Word(buffer@)));
    }
    Ok(tokens)
}

} // verus!
