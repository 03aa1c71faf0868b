//! The tokenizer of the shell language: quoting, escapes, comments,
//! operators, `~` and `${...}` expansion, and `$(...)` requests.
use crate::context::ShellContext;
use crate::error::ShellError;
use crate::expand::{lookup, lookup_variable};
use crate::iter::ExtendableIterator;
use crate::text::{chars_of, string_of};
use crate::tokens::{lexemes, words, BasicToken, Lexeme};
use crate::vars::VarMap;
use vstd::prelude::*;

verus! {

/// Which quote the tokenizer is inside.
#[derive(Clone, Copy, Debug, PartialEq, Eq, Structural)]
pub enum QuoteType {
    Unquoted,
    Single,
    Double,
}

/// Unicode white space, as `char::is_whitespace` defines it.
pub open spec fn is_space(c: char) -> bool {
    ('\t' <= c <= '\r') || c == ' ' || c == '\u{85}' || c == '\u{a0}' || c == '\u{1680}'
        || ('\u{2000}' <= c <= '\u{200a}') || c == '\u{2028}' || c == '\u{2029}'
        || c == '\u{202f}' || c == '\u{205f}' || c == '\u{3000}'
}

/// Whether `c` is Unicode white space.
pub fn is_white_space(c: char) -> (r: bool)
    ensures
        r == is_space(c),
{
    ('\t' <= c && c <= '\r') || c == ' ' || c == '\u{85}' || c == '\u{a0}' || c == '\u{1680}'
        || ('\u{2000}' <= c && c <= '\u{200a}') || c == '\u{2028}' || c == '\u{2029}'
        || c == '\u{202f}' || c == '\u{205f}' || c == '\u{3000}'
}

/// The first position of `c` in `s`.
pub open spec fn index_of(s: Seq<char>, c: char) -> Option<int>
    decreases s.len(),
{
    if s.len() == 0 {
        None
    } else if s[0] == c {
        Some(0)
    } else {
        match index_of(s.drop_first(), c) {
            Some(k) => Some(k + 1),
            None => None,
        }
    }
}

pub proof fn lemma_first_index(s: Seq<char>, c: char, k: int)
    requires
        0 <= k < s.len(),
        s[k] == c,
        forall|j: int| 0 <= j < k ==> s[j] != c,
    ensures
        index_of(s, c) == Some(k),
    decreases s.len(),
{
    if k > 0 {
        let t = s.drop_first();
        assert forall|j: int| 0 <= j < k - 1 implies t[j] != c by {
            assert(t[j] == s[j + 1]);
        }
        lemma_first_index(t, c, k - 1);
    }
}

pub proof fn lemma_no_index(s: Seq<char>, c: char)
    requires
        forall|j: int| 0 <= j < s.len() ==> s[j] != c,
    ensures
        index_of(s, c) is None,
    decreases s.len(),
{
    if s.len() > 0 {
        let t = s.drop_first();
        assert forall|j: int| 0 <= j < t.len() implies t[j] != c by {
            assert(t[j] == s[j + 1]);
        }
        lemma_no_index(t, c);
    }
}

/// What the tokenizer has built so far and what it has still to read.
pub struct LexState {
    pub quote: QuoteType,
    pub tokens: Seq<Lexeme>,
    pub buffer: Seq<char>,
    /// How many of the next characters come from a `$` expansion, plus one:
    /// they are not taken for quotes, operators or expansions.
    pub ignore: nat,
    /// How many of the next characters come from a `~` expansion, plus one:
    /// they start no further `~` or `$` expansion.
    pub quiet: nat,
    /// A quote was opened in the first word before any `=` in it, so that
    /// word is no assignment.
    pub name_quoted: bool,
    pub last: Option<char>,
    pub src: Seq<char>,
}

/// The variables, environment and arguments that `${...}` reads.
pub struct Scope {
    pub env: Map<Seq<char>, Seq<char>>,
    pub vars: Map<Seq<char>, Seq<char>>,
    pub args: Seq<Seq<char>>,
}

/// The outcome of reading one character.
pub enum LexStep {
    /// Go on reading.
    Next(LexState),
    /// The statement has ended.
    Stop(LexState),
    /// A syntax error.
    Fail(ShellError),
    /// `$(script)` was read: its output goes in front of what is left.
    Subshell(LexState, Seq<char>),
}

/// What `$...` reads: the expansion of a variable and the text after it, or
/// the script of a subshell and the text after it.
pub enum Dollar {
    Var(Seq<char>, Seq<char>),
    Sub(Seq<char>, Seq<char>),
    Bad(ShellError),
}

/// Reads what follows `$`.
pub open spec fn read_dollar(src: Seq<char>, scope: Scope) -> Dollar {
    if src.len() == 0 {
        Dollar::Bad(ShellError::NoIdentifier)
    } else if src[0] != '{' && src[0] != '(' {
        Dollar::Bad(ShellError::UnsupportedExpansion)
    } else {
        let rest = src.drop_first();
        let close = if src[0] == '{' { '}' } else { ')' };
        match index_of(rest, close) {
            None => Dollar::Bad(ShellError::BraceMismatch),
            Some(k) => {
                let name = rest.subrange(0, k);
                let after = rest.subrange(k + 1, rest.len() as int);
                if src[0] == '{' {
                    Dollar::Var(lookup(scope.env, scope.vars, scope.args, name), after)
                } else {
                    Dollar::Sub(name, after)
                }
            },
        }
    }
}

/// The text after the end of the current line.
pub open spec fn skip_line(src: Seq<char>) -> Seq<char> {
    match index_of(src, '\n') {
        Some(k) => src.subrange(k + 1, src.len() as int),
        None => seq![],
    }
}

/// A pending word, if any, becomes a token.
pub open spec fn flush(s: LexState) -> LexState {
    if s.buffer.len() > 0 {
        LexState { tokens: s.tokens.push(Lexeme::Word(s.buffer)), buffer: seq![], ..s }
    } else {
        s
    }
}

/// What `HOME` gives to `~`: its value, or `~` itself when it is unset.
pub open spec fn home_of(scope: Scope) -> Seq<char> {
    if scope.env.contains_key(seq!['H', 'O', 'M', 'E']) {
        scope.env[seq!['H', 'O', 'M', 'E']]
    } else {
        seq!['~']
    }
}

/// The operator characters.
pub open spec fn is_operator(c: char) -> bool {
    c == '&' || c == '|' || c == '>' || c == '<' || c == ';'
}

/// `~` and `$` outside single quotes, but not in the text that a `~` put
/// in; any other character joins the word.
/// `last` is the character before `c`, `s1` the state after reading `c`.
pub open spec fn expand_or_keep(last: Option<char>, s1: LexState, c: char, scope: Scope) -> LexStep {
    if s1.quiet == 0 && c == '~' && (last is None || is_space(last->0) || last->0 == '"') {
        let src = s1.src;
        let at_end = src.len() == 0 || is_space(src[0]) || src[0] == '/' || src[0] == '"';
        if at_end {
            if home_of(scope).len() + 1 > usize::MAX {
                LexStep::Fail(ShellError::ExpansionTooLong)
            } else {
                LexStep::Next(LexState { src: home_of(scope) + src, quiet: home_of(scope).len() + 1, ..s1 })
            }
        } else {
            LexStep::Next(LexState { buffer: s1.buffer.push(c), ..s1 })
        }
    } else if s1.quiet == 0 && c == '$' {
        match read_dollar(s1.src, scope) {
            Dollar::Bad(e) => LexStep::Fail(e),
            Dollar::Var(v, after) => if v.len() + 1 > usize::MAX {
                LexStep::Fail(ShellError::ExpansionTooLong)
            } else {
                LexStep::Next(LexState { src: v + after, ignore: v.len() + 1, ..s1 })
            },
            Dollar::Sub(script, after) => LexStep::Subshell(LexState { src: after, ..s1 }, script),
        }
    } else {
        LexStep::Next(LexState { buffer: s1.buffer.push(c), ..s1 })
    }
}

/// An operator character outside quotes. `last` is the character before it,
/// `s1` the state after reading it.
pub open spec fn operator_step(last: Option<char>, s1: LexState, c: char) -> LexStep {
    let s2 = flush(s1);
    let t = s2.tokens;
    if c == ';' {
        LexStep::Stop(s2)
    } else if c == '|' {
        if last == Some('|') {
            if t.len() > 0 && t.last() is Pipe {
                LexStep::Next(LexState { tokens: t.drop_last().push(Lexeme::Or), ..s2 })
            } else {
                LexStep::Fail(ShellError::UnexpectedPipe)
            }
        } else {
            LexStep::Next(LexState { tokens: t.push(Lexeme::Pipe), ..s2 })
        }
    } else if c == '>' {
        if last == Some('>') {
            if t.len() > 0 && t.last() == Lexeme::Out(false) {
                LexStep::Next(LexState { tokens: t.drop_last().push(Lexeme::Out(true)), ..s2 })
            } else {
                LexStep::Fail(ShellError::UnexpectedRedirect)
            }
        } else {
            LexStep::Next(LexState { tokens: t.push(Lexeme::Out(false)), ..s2 })
        }
    } else if c == '<' {
        LexStep::Next(LexState { tokens: t.push(Lexeme::In), ..s2 })
    } else if s2.src.len() > 0 && s2.src[0] == '&' {
        LexStep::Next(LexState { tokens: t.push(Lexeme::And), src: s2.src.drop_first(), ..s2 })
    } else {
        LexStep::Fail(ShellError::BackgroundTask)
    }
}

/// Reads one character; at the end of the input the statement ends.
pub open spec fn lex_step(s: LexState, scope: Scope) -> LexStep {
    if s.src.len() == 0 {
        LexStep::Stop(s)
    } else {
        let c = s.src[0];
        let ign: nat = if s.ignore > 0 { (s.ignore - 1) as nat } else { 0 };
        let qt: nat = if s.quiet > 0 { (s.quiet - 1) as nat } else { 0 };
        let s1 = LexState { last: Some(c), src: s.src.drop_first(), ignore: ign, quiet: qt, ..s };
        if s.quote == QuoteType::Unquoted && (c == ' ' || c == '\n' || c == '\t') {
            if c == '\n' && ign == 0 {
                LexStep::Stop(flush(s1))
            } else {
                LexStep::Next(flush(s1))
            }
        } else if ign > 0 {
            LexStep::Next(LexState { buffer: s1.buffer.push(c), ..s1 })
        } else {
            match s.quote {
                QuoteType::Unquoted => {
                    if c == '\'' {
                        LexStep::Next(LexState { quote: QuoteType::Single, name_quoted: quotes_name(s1), ..s1 })
                    } else if c == '"' {
                        LexStep::Next(LexState { quote: QuoteType::Double, name_quoted: quotes_name(s1), ..s1 })
                    } else if c == '#' {
                        LexStep::Stop(LexState { src: skip_line(s1.src), ..s1 })
                    } else if c == '\\' {
                        if s1.src.len() == 0 {
                            LexStep::Stop(s1)
                        } else {
                            let n = s1.src[0];
                            LexStep::Next(LexState {
                                src: s1.src.drop_first(),
                                buffer: if n != '\n' { s1.buffer.push(n) } else { s1.buffer },
                                ..s1
                            })
                        }
                    } else if is_operator(c) {
                        operator_step(s.last, s1, c)
                    } else {
                        expand_or_keep(s.last, s1, c, scope)
                    }
                },
                QuoteType::Single => {
                    if c == '\'' {
                        LexStep::Next(LexState {
                            tokens: s1.tokens.push(Lexeme::Word(s1.buffer)),
                            buffer: seq![],
                            quote: QuoteType::Unquoted,
                            ..s1
                        })
                    } else {
                        LexStep::Next(LexState { buffer: s1.buffer.push(c), ..s1 })
                    }
                },
                QuoteType::Double => {
                    if c == '"' {
                        LexStep::Next(LexState {
                            tokens: s1.tokens.push(Lexeme::Word(s1.buffer)),
                            buffer: seq![],
                            quote: QuoteType::Unquoted,
                            ..s1
                        })
                    } else {
                        expand_or_keep(s.last, s1, c, scope)
                    }
                },
            }
        }
    }
}

/// The part of the input that is still to be read outside the window of an
/// expansion.
pub open spec fn unexpanded(s: LexState) -> nat {
    let w1: int = if s.ignore > 0 { s.ignore - 1 } else { 0 };
    let w2: int = if s.quiet > 0 { s.quiet - 1 } else { 0 };
    let window: int = if w1 > w2 { w1 } else { w2 };
    if window < s.src.len() {
        (s.src.len() - window) as nat
    } else {
        0
    }
}

/// Each step that goes on reads some of the unexpanded input, or else
/// narrows the expansion window.
pub proof fn lemma_step_progress(s: LexState, scope: Scope)
    ensures
        lex_step(s, scope) is Next ==> {
            let t = lex_step(s, scope)->Next_0;
            ||| unexpanded(t) < unexpanded(s)
            ||| (unexpanded(t) == unexpanded(s) && t.ignore + t.quiet < s.ignore + s.quiet)
        },
{
    if s.src.len() > 0 {
        let c = s.src[0];
        let rest = s.src.drop_first();
        let ign: nat = if s.ignore > 0 { (s.ignore - 1) as nat } else { 0 };
        let qt: nat = if s.quiet > 0 { (s.quiet - 1) as nat } else { 0 };
        let s1 = LexState { last: Some(c), src: rest, ignore: ign, quiet: qt, ..s };
        assert(unexpanded(flush(s1)) == unexpanded(s1));
        if ign > 0 || qt > 0 {
            assert(unexpanded(s1) == unexpanded(s));
            if rest.len() > 0 {
                let r2 = rest.drop_first();
                assert(unexpanded(LexState { src: r2, ..s1 }) <= unexpanded(s1));
            }
        } else {
            assert(unexpanded(s1) < unexpanded(s));
            if rest.len() > 0 {
                let r2 = rest.drop_first();
                assert(unexpanded(LexState { src: r2, ..s1 }) < unexpanded(s1));
                if c == '$' && (rest[0] == '{' || rest[0] == '(') {
                    let close = if rest[0] == '{' { '}' } else { ')' };
                    lemma_index_bounds(r2, close);
                    match index_of(r2, close) {
                        Some(k) => {
                            let name = r2.subrange(0, k);
                            let after = r2.subrange(k + 1, r2.len() as int);
                            let v = lookup(scope.env, scope.vars, scope.args, name);
                            let t = LexState { src: v + after, ignore: v.len() + 1, ..s1 };
                            assert(unexpanded(t) == after.len());
                        },
                        None => {},
                    }
                }
            }
            if c == '~' {
                let h = home_of(scope);
                let t = LexState { src: h + rest, quiet: h.len() + 1, ..s1 };
                assert(unexpanded(t) == rest.len());
            }
        }
    }
}

proof fn lemma_index_bounds(s: Seq<char>, c: char)
    ensures
        index_of(s, c) is Some ==> 0 <= index_of(s, c)->0 < s.len(),
    decreases s.len(),
{
    if s.len() > 0 {
        lemma_index_bounds(s.drop_first(), c);
    }
}

/// `>>` is one token: a `>` read right after a `>` turns the redirect that
/// the first one gave into an appending one, and a third `>` is a syntax
/// error. A `>` after anything else is a truncating redirect.
pub proof fn lemma_append_redirect(s: LexState, scope: Scope)
    requires
        s.src.len() > 0,
        s.src[0] == '>',
        s.quote == QuoteType::Unquoted,
        s.ignore <= 1,
    ensures
        s.last == Some('>') && s.buffer.len() == 0 && s.tokens.len() > 0 && s.tokens.last() == Lexeme::Out(false)
            ==> lex_step(s, scope) is Next && lex_step(s, scope)->Next_0.tokens == s.tokens.drop_last().push(
            Lexeme::Out(true),
        ),
        s.last == Some('>') && s.buffer.len() == 0 && s.tokens.len() > 0 && s.tokens.last() == Lexeme::Out(true)
            ==> lex_step(s, scope) == LexStep::Fail(ShellError::UnexpectedRedirect),
        s.last != Some('>') ==> lex_step(s, scope) is Next && lex_step(s, scope)->Next_0.tokens == flush(
            s,
        ).tokens.push(Lexeme::Out(false)),
{
}

/// The outcome after `n` characters have been read, stopping early at the end
/// of the statement, an error or a subshell.
pub open spec fn lex_steps(s: LexState, scope: Scope, n: nat) -> LexStep
    decreases n,
{
    if n == 0 {
        LexStep::Next(s)
    } else {
        match lex_steps(s, scope, (n - 1) as nat) {
            LexStep::Next(t) => lex_step(t, scope),
            other => other,
        }
    }
}

proof fn lemma_lex_steps_stay(s: LexState, scope: Scope, n: nat, m: nat)
    requires
        n <= m,
        !(lex_steps(s, scope, n) is Next),
    ensures
        lex_steps(s, scope, m) == lex_steps(s, scope, n),
    decreases m - n,
{
    if n < m {
        lemma_lex_steps_stay(s, scope, n, (m - 1) as nat);
    }
}

/// Reading stops in one way only: two step counts after which reading has
/// stopped give the same outcome.
pub proof fn lemma_lex_outcome_unique(s: LexState, scope: Scope, n: nat, m: nat)
    requires
        !(lex_steps(s, scope, n) is Next),
        !(lex_steps(s, scope, m) is Next),
    ensures
        lex_steps(s, scope, n) == lex_steps(s, scope, m),
{
    if n <= m {
        lemma_lex_steps_stay(s, scope, n, m);
    } else {
        lemma_lex_steps_stay(s, scope, m, n);
    }
}

/// Whether a quote opened now is in the first word, before any `=` in it.
pub open spec fn quotes_name(s: LexState) -> bool {
    s.name_quoted || (s.tokens.len() == 0 && index_of(s.buffer, '=') is None)
}

/// A shell variable name: a letter or `_`, then letters, digits or `_`.
pub open spec fn is_identifier(n: Seq<char>) -> bool {
    &&& n.len() > 0
    &&& ('a' <= n[0] <= 'z' || 'A' <= n[0] <= 'Z' || n[0] == '_')
    &&& forall|i: int|
        0 < i < n.len() ==> ('a' <= #[trigger] n[i] <= 'z' || 'A' <= n[i] <= 'Z' || '0' <= n[i] <= '9' || n[i]
            == '_')
}

/// A leading `name=value` word whose name is an identifier typed without
/// quotes: the name and the value.
pub open spec fn assignment_of(t: Seq<Lexeme>, name_quoted: bool) -> Option<(Seq<char>, Seq<char>)> {
    if !name_quoted && t.len() > 0 && t[0] is Word {
        let w = t[0]->Word_0;
        match index_of(w, '=') {
            Some(k) => if is_identifier(w.subrange(0, k)) {
                Some((w.subrange(0, k), w.subrange(k + 1, w.len() as int)))
            } else {
                None
            },
            None => None,
        }
    } else {
        None
    }
}

/// The tokens of a finished statement: a leading assignment is taken out.
pub open spec fn statement_tokens(t: Seq<Lexeme>, name_quoted: bool) -> Seq<Lexeme> {
    if assignment_of(t, name_quoted) is Some {
        t.drop_first()
    } else {
        t
    }
}

/// The shell variables after a statement: a leading assignment binds its name.
pub open spec fn vars_after(vars: Map<Seq<char>, Seq<char>>, t: Seq<Lexeme>, name_quoted: bool) -> Map<
    Seq<char>,
    Seq<char>,
> {
    match assignment_of(t, name_quoted) {
        Some(p) => vars.insert(p.0, p.1),
        None => vars,
    }
}

/// The environment after a statement: a leading assignment updates a name that
/// the environment already has.
pub open spec fn env_after(env: Map<Seq<char>, Seq<char>>, t: Seq<Lexeme>, name_quoted: bool) -> Map<
    Seq<char>,
    Seq<char>,
> {
    match assignment_of(t, name_quoted) {
        Some(p) => if env.contains_key(p.0) {
            env.insert(p.0, p.1)
        } else {
            env
        },
        None => env,
    }
}

/// A statement that stopped in state `t` gave the tokens `toks`, the shell
/// variables `vars1` and the environment `env1`, and left `rest` to read.
pub open spec fn finished(
    t: LexState,
    toks: Seq<BasicToken>,
    vars0: Map<Seq<char>, Seq<char>>,
    vars1: Map<Seq<char>, Seq<char>>,
    env0: Map<Seq<char>, Seq<char>>,
    env1: Map<Seq<char>, Seq<char>>,
    rest: Seq<char>,
) -> bool {
    &&& t.quote == QuoteType::Unquoted
    &&& lexemes(toks) == statement_tokens(flush(t).tokens, t.name_quoted)
    &&& vars1 == vars_after(vars0, flush(t).tokens, t.name_quoted)
    &&& env1 == env_after(env0, flush(t).tokens, t.name_quoted)
    &&& rest == t.src
}

/// What the step function reports to the loop that calls it.
enum Flow {
    Next,
    Stop,
    Sub(Vec<char>),
}

/// Whether `n` is a shell variable name.
fn identifier(n: &Vec<char>) -> (r: bool)
    ensures
        r == is_identifier(n@),
{
    if n.len() == 0 {
        return false;
    }
    let c = n[0];
    if !(('a' <= c && c <= 'z') || ('A' <= c && c <= 'Z') || c == '_') {
        return false;
    }
    let mut i: usize = 1;
    while i < n.len()
        invariant
            1 <= i <= n@.len(),
            forall|j: int|
                0 < j < i ==> ('a' <= #[trigger] n@[j] <= 'z' || 'A' <= n@[j] <= 'Z' || '0' <= n@[j] <= '9'
                    || n@[j] == '_'),
        decreases n@.len() - i,
    {
        let d = n[i];
        if !(('a' <= d && d <= 'z') || ('A' <= d && d <= 'Z') || ('0' <= d && d <= '9') || d == '_') {
            return false;
        }
        i = i + 1;
    }
    true
}

/// The first position of `c` in `v`.
fn position_of(v: &Vec<char>, c: char) -> (r: Option<usize>)
    ensures
        r is Some ==> r->0 < v@.len(),
        match index_of(v@, c) {
            Some(k) => r is Some && r->0 as int == k,
            None => r is None,
        },
{
    let mut i: usize = 0;
    while i < v.len()
        invariant
            i <= v@.len(),
            forall|j: int| 0 <= j < i ==> v@[j] != c,
        decreases v@.len() - i,
    {
        if v[i] == c {
            proof {
                lemma_first_index(v@, c, i as int);
            }
            return Some(i);
        }
        i = i + 1;
    }
    proof {
        lemma_no_index(v@, c);
    }
    None
}

/// The characters of `v` from `from` up to `to`.
fn slice_chars(v: &Vec<char>, from: usize, to: usize) -> (r: Vec<char>)
    requires
        from <= to <= v@.len(),
    ensures
        r@ == v@.subrange(from as int, to as int),
{
    let mut r: Vec<char> = Vec::new();
    let mut i = from;
    while i < to
        invariant
            from <= i <= to,
            to <= v@.len(),
            r@ == v@.subrange(from as int, i as int),
        decreases to - i,
    {
        r.push(v[i]);
        i = i + 1;
        assert(r@ =~= v@.subrange(from as int, i as int));
    }
    r
}

/// The result of one call of `Tokenizer::run`.
#[derive(Debug)]
pub enum TokenizeStep {
    /// The statement's tokens.
    Done(Vec<BasicToken>),
    /// The script of a `$(...)`: run it, then hand its output to `resume`.
    Subshell(String),
}

/// A tokenizer of one statement, which can pause at `$(...)`.
pub struct Tokenizer {
    quote: QuoteType,
    tokens: Vec<BasicToken>,
    buffer: Vec<char>,
    ignore: usize,
    quiet: usize,
    name_quoted: bool,
    last: Option<char>,
}

/// Takes the characters up to the first `stop`, which is consumed too.
pub(crate) fn take_until(source: &mut ExtendableIterator<char>, stop: char) -> (r: (Vec<char>, bool))
    ensures
        match index_of(old(source)@, stop) {
            Some(k) => r.1 && r.0@ == old(source)@.subrange(0, k) && final(source)@ == old(source)@.subrange(
                k + 1,
                old(source)@.len() as int,
            ),
            None => !r.1 && final(source)@ == Seq::<char>::empty(),
        },
{
    let ghost s0 = source@;
    let mut taken: Vec<char> = Vec::new();
    loop
        invariant
            s0 == old(source)@,
            s0 == taken@ + source@,
            forall|j: int| 0 <= j < taken@.len() ==> taken@[j] != stop,
        decreases source@.len(),
    {
        match source.next() {
            None => {
                proof {
                    assert(s0 =~= taken@);
                    assert(source@ =~= Seq::<char>::empty());
                    lemma_no_index(s0, stop);
                }
                return (taken, false);
            },
            Some(c) => {
                if c == stop {
                    proof {
                        let k = taken@.len() as int;
                        assert(s0[k] == c);
                        assert forall|j: int| 0 <= j < k implies s0[j] != stop by {
                            assert(s0[j] == taken@[j]);
                        }
                        lemma_first_index(s0, stop, k);
                        assert(taken@ =~= s0.subrange(0, k));
                        assert(source@ =~= s0.subrange(k + 1, s0.len() as int));
                    }
                    return (taken, true);
                }
                taken.push(c);
                proof {
                    assert(s0 =~= taken@ + source@);
                }
            },
        }
    }
}

impl Tokenizer {
    /// The model of this tokenizer reading `src`.
    pub closed spec fn state(&self, src: Seq<char>) -> LexState {
        LexState {
            quote: self.quote,
            tokens: lexemes(self.tokens@),
            buffer: self.buffer@,
            ignore: self.ignore as nat,
            quiet: self.quiet as nat,
            name_quoted: self.name_quoted,
            last: self.last,
            src,
        }
    }

    fn flush_buffer(&mut self, Ghost(src): Ghost<Seq<char>>)
        ensures
            final(self).state(src) == flush(old(self).state(src)),
    {
        if self.buffer.len() > 0 {
            let ghost t0 = lexemes(self.tokens@);
            let w = string_of(&self.buffer);
            self.tokens.push(BasicToken::Value(w));
            self.buffer = Vec::new();
            assert(lexemes(self.tokens@) =~= t0.push(Lexeme::Word(old(self).buffer@)));
        }
    }

    fn note_quote(&mut self)
        ensures
            final(self).name_quoted == quotes_name(old(self).state(seq![])),
            final(self).quote == old(self).quote,
            final(self).tokens == old(self).tokens,
            final(self).buffer == old(self).buffer,
            final(self).ignore == old(self).ignore,
            final(self).quiet == old(self).quiet,
            final(self).last == old(self).last,
    {
        if self.tokens.len() == 0 && position_of(&self.buffer, '=').is_none() {
            self.name_quoted = true;
        }
    }

    fn push_token(&mut self, t: BasicToken)
        ensures
            lexemes(final(self).tokens@) == lexemes(old(self).tokens@).push(t@),
            final(self).quote == old(self).quote,
            final(self).buffer == old(self).buffer,
            final(self).ignore == old(self).ignore,
            final(self).quiet == old(self).quiet,
            final(self).name_quoted == old(self).name_quoted,
            final(self).last == old(self).last,
    {
        let ghost t0 = lexemes(self.tokens@);
        self.tokens.push(t);
        assert(lexemes(self.tokens@) =~= t0.push(t@));
    }

    fn operator(&mut self, prev: Option<char>, c: char, source: &mut ExtendableIterator<char>) -> (r: Result<Flow, ShellError>)
        requires
            is_operator(c),
        ensures
            ({
                let s1 = old(self).state(old(source)@);
                let out = operator_step(prev, s1, c);
                match r {
                    Ok(Flow::Next) => out == LexStep::Next(final(self).state(final(source)@)),
                    Ok(Flow::Stop) => out == LexStep::Stop(final(self).state(final(source)@)),
                    Ok(Flow::Sub(_)) => false,
                    Err(e) => out == LexStep::Fail(e),
                }
            }),
    {
        self.flush_buffer(Ghost(source@));
        if c == ';' {
            return Ok(Flow::Stop);
        }
        if c == '|' {
            if prev == Some('|') {
                let ghost t0 = lexemes(self.tokens@);
                match self.tokens.pop() {
                    Some(BasicToken::Pipe) => {
                        assert(lexemes(self.tokens@) =~= t0.drop_last());
                        self.push_token(BasicToken::Or);
                        return Ok(Flow::Next);
                    },
                    _ => {
                        return Err(ShellError::UnexpectedPipe);
                    },
                }
            }
            self.push_token(BasicToken::Pipe);
            return Ok(Flow::Next);
        }
        if c == '>' {
            if prev == Some('>') {
                let ghost t0 = lexemes(self.tokens@);
                match self.tokens.pop() {
                    Some(BasicToken::FileRedirectOut { append: false }) => {
                        assert(lexemes(self.tokens@) =~= t0.drop_last());
                        self.push_token(BasicToken::FileRedirectOut { append: true });
                        return Ok(Flow::Next);
                    },
                    _ => {
                        return Err(ShellError::UnexpectedRedirect);
                    },
                }
            }
            self.push_token(BasicToken::FileRedirectOut { append: false });
            return Ok(Flow::Next);
        }
        if c == '<' {
            self.push_token(BasicToken::FileRedirectIn);
            return Ok(Flow::Next);
        }
        match source.next() {
            Some('&') => {
                self.push_token(BasicToken::And);
                Ok(Flow::Next)
            },
            _ => Err(ShellError::BackgroundTask),
        }
    }

    fn expand_or_keep(
        &mut self,
        prev: Option<char>,
        c: char,
        env: &VarMap,
        vars: &VarMap,
        args: &Vec<String>,
        source: &mut ExtendableIterator<char>,
    ) -> (r: Result<Flow, ShellError>)
        requires
            env.wf(),
            vars.wf(),
        ensures
            ({
                let s1 = old(self).state(old(source)@);
                let scope = Scope { env: env@, vars: vars@, args: words(args@) };
                let out = expand_or_keep(prev, s1, c, scope);
                match r {
                    Ok(Flow::Next) => out == LexStep::Next(final(self).state(final(source)@)),
                    Ok(Flow::Stop) => false,
                    Ok(Flow::Sub(script)) => out == LexStep::Subshell(final(self).state(final(source)@), script@),
                    Err(e) => out == LexStep::Fail(e),
                }
            }),
    {
        let home_ok = match prev {
            None => true,
            Some(p) => is_white_space(p) || p == '"',
        };
        if self.quiet == 0 && c == '~' && home_ok {
            let ghost rest = source@;
            let next = source.next();
            match next {
                Some(n) => {
                    let one = vec![n];
                    assert(one@ =~= seq![n]);
                    source.prepend(one);
                    assert(source@ =~= rest);
                },
                None => {
                    assert(source@ =~= rest);
                },
            }
            let at_end = match next {
                None => true,
                Some(n) => is_white_space(n) || n == '/' || n == '"',
            };
            if at_end {
                proof {
                    reveal_strlit("HOME");
                    assert("HOME"@ =~= seq!['H', 'O', 'M', 'E']);
                }
                let home = match env.get("HOME") {
                    Some(v) => chars_of(v.as_str()),
                    None => {
                        let t = vec!['~'];
                        assert(t@ =~= seq!['~']);
                        t
                    },
                };
                assert(home@ == home_of(Scope { env: env@, vars: vars@, args: words(args@) }));
                let n = home.len();
                if n == usize::MAX {
                    return Err(ShellError::ExpansionTooLong);
                }
                source.prepend(home);
                self.quiet = n + 1;
            } else {
                self.buffer.push(c);
            }
            return Ok(Flow::Next);
        }
        if self.quiet == 0 && c == '$' {
            let ghost src = source@;
            let d = match source.next() {
                None => {
                    return Err(ShellError::NoIdentifier);
                },
                Some(d) => d,
            };
            if d != '{' && d != '(' {
                return Err(ShellError::UnsupportedExpansion);
            }
            let close = if d == '{' { '}' } else { ')' };
            assert(source@ == src.drop_first());
            let (name, found) = take_until(source, close);
            if !found {
                return Err(ShellError::BraceMismatch);
            }
            if d == '{' {
                let v = lookup_variable(env, vars, args, &name);
                let n = v.len();
                if n == usize::MAX {
                    return Err(ShellError::ExpansionTooLong);
                }
                source.prepend(v);
                self.ignore = n + 1;
                return Ok(Flow::Next);
            }
            return Ok(Flow::Sub(name));
        }
        self.buffer.push(c);
        Ok(Flow::Next)
    }

    fn step(
        &mut self,
        env: &VarMap,
        vars: &VarMap,
        args: &Vec<String>,
        source: &mut ExtendableIterator<char>,
    ) -> (r: Result<Flow, ShellError>)
        requires
            env.wf(),
            vars.wf(),
        ensures
            ({
                let s = old(self).state(old(source)@);
                let scope = Scope { env: env@, vars: vars@, args: words(args@) };
                let out = lex_step(s, scope);
                match r {
                    Ok(Flow::Next) => out == LexStep::Next(final(self).state(final(source)@)),
                    Ok(Flow::Stop) => out == LexStep::Stop(final(self).state(final(source)@)),
                    Ok(Flow::Sub(script)) => out == LexStep::Subshell(final(self).state(final(source)@), script@),
                    Err(e) => out == LexStep::Fail(e),
                }
            }),
    {
        let ghost s = self.state(source@);
        let c = match source.next() {
            None => {
                return Ok(Flow::Stop);
            },
            Some(c) => c,
        };
        let prev = self.last;
        self.last = Some(c);
        self.ignore = if self.ignore > 0 { self.ignore - 1 } else { 0 };
        self.quiet = if self.quiet > 0 { self.quiet - 1 } else { 0 };
        let ghost ign: nat = if s.ignore > 0 { (s.ignore - 1) as nat } else { 0 };
        let ghost qt: nat = if s.quiet > 0 { (s.quiet - 1) as nat } else { 0 };
        let ghost s1 = LexState { last: Some(c), src: s.src.drop_first(), ignore: ign, quiet: qt, ..s };
        assert(self.state(source@) == s1);
        let ghost scope = Scope { env: env@, vars: vars@, args: words(args@) };
        if self.quote == QuoteType::Unquoted && (c == ' ' || c == '\n' || c == '\t') {
            self.flush_buffer(Ghost(source@));
            if c == '\n' && self.ignore == 0 {
                return Ok(Flow::Stop);
            }
            return Ok(Flow::Next);
        }
        if self.ignore > 0 {
            self.buffer.push(c);
            return Ok(Flow::Next);
        }
        match self.quote {
            QuoteType::Unquoted => {
                if c == '\'' {
                    self.note_quote();
                    self.quote = QuoteType::Single;
                    assert(lex_step(s, scope) == LexStep::Next(self.state(source@)));
                    Ok(Flow::Next)
                } else if c == '"' {
                    self.note_quote();
                    self.quote = QuoteType::Double;
                    Ok(Flow::Next)
                } else if c == '#' {
                    let _ = take_until(source, '\n');
                    assert(lex_step(s, scope) == LexStep::Stop(self.state(source@)));
                    Ok(Flow::Stop)
                } else if c == '\\' {
                    match source.next() {
                        None => {
                            assert(lex_step(s, scope) == LexStep::Stop(self.state(source@)));
                            Ok(Flow::Stop)
                        },
                        Some(n) => {
                            if n != '\n' {
                                self.buffer.push(n);
                            }
                            assert(lex_step(s, scope) == LexStep::Next(self.state(source@)));
                            Ok(Flow::Next)
                        },
                    }
                } else if c == '&' || c == '|' || c == '>' || c == '<' || c == ';' {
                    self.operator(prev, c, source)
                } else {
                    self.expand_or_keep(prev, c, env, vars, args, source)
                }
            },
            QuoteType::Single => {
                if c == '\'' {
                    let w = string_of(&self.buffer);
                    self.push_token(BasicToken::Value(w));
                    self.buffer = Vec::new();
                    self.quote = QuoteType::Unquoted;
                } else {
                    self.buffer.push(c);
                }
                assert(lex_step(s, scope) == LexStep::Next(self.state(source@)));
                Ok(Flow::Next)
            },
            QuoteType::Double => {
                if c == '"' {
                    let w = string_of(&self.buffer);
                    self.push_token(BasicToken::Value(w));
                    self.buffer = Vec::new();
                    self.quote = QuoteType::Unquoted;
                    Ok(Flow::Next)
                } else {
                    self.expand_or_keep(prev, c, env, vars, args, source)
                }
            },
        }
    }

    /// Reads the next statement from `source`. It ends at a newline or `;`
    /// outside quotes, after a comment, or at the end of the input. A `$(...)`
    /// pauses the tokenizer with the script to run; `resume` goes on from there.
    /// A statement that begins with `name=value` binds the shell variable, and
    /// the environment variable if the environment has that name, and that word
    /// is not among the tokens.
    pub fn run(
        &mut self,
        ctx: &mut ShellContext,
        env: &mut VarMap,
        args: &Vec<String>,
        source: &mut ExtendableIterator<char>,
    ) -> (r: Result<TokenizeStep, ShellError>)
        requires
            old(ctx).variables.wf(),
            old(env).wf(),
        ensures
            final(ctx).variables.wf(),
            final(env).wf(),
            final(ctx).do_exit_with == old(ctx).do_exit_with,
            ({
                let init = old(self).state(old(source)@);
                let scope = Scope { env: old(env)@, vars: old(ctx).variables@, args: words(args@) };
                match r {
                    Ok(TokenizeStep::Done(toks)) => exists|n: nat|
                        {
                            &&& #[trigger] lex_steps(init, scope, n) is Stop
                            &&& finished(lex_steps(init, scope, n)->Stop_0, toks@, old(ctx).variables@,
                                final(ctx).variables@, old(env)@, final(env)@, final(source)@)
                        },
                    Ok(TokenizeStep::Subshell(script)) => {
                        &&& exists|n: nat| #[trigger] lex_steps(init, scope, n) == LexStep::Subshell(
                            final(self).state(final(source)@),
                            script@,
                        )
                        &&& final(ctx).variables@ == old(ctx).variables@
                        &&& final(env)@ == old(env)@
                    },
                    Err(e) => exists|n: nat|
                        {
                            ||| #[trigger] lex_steps(init, scope, n) == LexStep::Fail(e)
                            ||| (lex_steps(init, scope, n) is Stop && lex_steps(init, scope, n)->Stop_0.quote
                                != QuoteType::Unquoted && e == ShellError::MismatchedQuote)
                        },
                }
            }),
    {
        let ghost init = self.state(source@);
        let ghost scope = Scope { env: env@, vars: ctx.variables@, args: words(args@) };
        let ghost mut n: nat = 0;
        loop
            invariant_except_break
                lex_steps(init, scope, n) == LexStep::Next(self.state(source@)),
            invariant
                ctx.variables.wf(),
                env.wf(),
                ctx.variables@ == scope.vars,
                env@ == scope.env,
                ctx.do_exit_with == old(ctx).do_exit_with,
                scope.args == words(args@),
                init == old(self).state(old(source)@),
                scope == (Scope { env: old(env)@, vars: old(ctx).variables@, args: words(args@) }),
            ensures
                lex_steps(init, scope, n) == LexStep::Stop(self.state(source@)),
            decreases unexpanded(self.state(source@)), self.ignore + self.quiet,
        {
            proof {
                lemma_step_progress(self.state(source@), scope);
            }
            let flow = self.step(env, &ctx.variables, args, source);
            proof {
                n = n + 1;
            }
            match flow {
                Err(e) => {
                    assert(lex_steps(init, scope, n) == LexStep::Fail(e));
                    return Err(e);
                },
                Ok(Flow::Sub(script)) => {
                    let script = string_of(&script);
                    assert(lex_steps(init, scope, n) == LexStep::Subshell(self.state(source@), script@));
                    return Ok(TokenizeStep::Subshell(script));
                },
                Ok(Flow::Next) => {},
                Ok(Flow::Stop) => {
                    break;
                },
            }
        }
        let ghost t = self.state(source@);
        assert(lex_steps(init, scope, n) == LexStep::Stop(t));
        if self.quote != QuoteType::Unquoted {
            return Err(ShellError::MismatchedQuote);
        }
        self.flush_buffer(Ghost(source@));
        let mut toks: Vec<BasicToken> = Vec::new();
        std::mem::swap(&mut toks, &mut self.tokens);
        let ghost ft = lexemes(toks@);
        assert(ft == flush(t).tokens);
        let ghost vars0 = ctx.variables@;
        let ghost env0 = env@;
        if toks.len() > 0 {
            let mut assigned = false;
            match &toks[0] {
                BasicToken::Value(w) => {
                    let wc = chars_of(w.as_str());
                    assert(ft[0] == Lexeme::Word(wc@));
                    match position_of(&wc, '=') {
                        Some(k) => {
                            let wl = wc.len();
                            assert(k < wl);
                            let name_chars = slice_chars(&wc, 0, k);
                            if !self.name_quoted && identifier(&name_chars) {
                                let name = string_of(&name_chars);
                                let value = string_of(&slice_chars(&wc, k + 1, wl));
                                assert(assignment_of(ft, t.name_quoted) == Some((name@, value@)));
                                if env.contains_key(name.as_str()) {
                                    env.insert(name.clone(), value.clone());
                                }
                                ctx.variables.insert(name, value);
                                assigned = true;
                            } else {
                                assert(assignment_of(ft, t.name_quoted) is None);
                            }
                        },
                        None => {
                            assert(assignment_of(ft, t.name_quoted) is None);
                        },
                    }
                },
                _ => {
                    assert(assignment_of(ft, t.name_quoted) is None);
                },
            }
            if assigned {
                toks.remove(0);
                assert(lexemes(toks@) =~= ft.drop_first());
            }
        } else {
            assert(assignment_of(ft, t.name_quoted) is None);
        }
        assert(finished(t, toks@, vars0, ctx.variables@, env0, env@, source@));
        Ok(TokenizeStep::Done(toks))
    }

    /// Goes on after a `$(...)`: its output is read next, and is not taken
    /// for quotes, operators or further expansions.
    pub fn resume(&mut self, source: &mut ExtendableIterator<char>, output: &str) -> (r: Result<(), ShellError>)
        ensures
            output@.len() + 1 > usize::MAX ==> r == Err::<(), ShellError>(ShellError::ExpansionTooLong)
                && final(source)@ == old(source)@ && final(self).state(final(source)@) == old(self).state(
                old(source)@,
            ),
            output@.len() + 1 <= usize::MAX ==> r is Ok && final(source)@ == output@ + old(source)@
                && final(self).state(final(source)@) == (LexState {
                ignore: output@.len() + 1,
                src: final(source)@,
                ..old(self).state(old(source)@)
            }),
    {
        let v = chars_of(output);
        let n = v.len();
        if n == usize::MAX {
            return Err(ShellError::ExpansionTooLong);
        }
        source.prepend(v);
        self.ignore = n + 1;
        Ok(())
    }

    /// A tokenizer at the start of a statement.
    pub fn new() -> (r: Tokenizer)
        ensures
            forall|src: Seq<char>|
                #[trigger] r.state(src) == (LexState {
                    quote: QuoteType::Unquoted,
                    tokens: seq![],
                    buffer: seq![],
                    ignore: 0,
                    quiet: 0,
                    name_quoted: false,
                    last: None,
                    src,
                }),
    {
        let r = Tokenizer {
            quote: QuoteType::Unquoted,
            tokens: Vec::new(),
            buffer: Vec::new(),
            ignore: 0,
            quiet: 0,
            name_quoted: false,
            last: None,
        };
        assert(lexemes(r.tokens@) =~= Seq::<Lexeme>::empty());
        r
    }
}

} // verus!
