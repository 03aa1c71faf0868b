//! The `test` command: compares two words, or matches a word against a
//! regular expression.
use crate::exit_code::ExitCode;
use crate::text::same_text;
use crate::tokens::words;
use vstd::prelude::*;

verus! {

/// Whether the regular expression `pattern` matches somewhere in `text`;
/// `None` when the pattern does not compile.
pub uninterp spec fn regex_verdict(pattern: Seq<char>, text: Seq<char>) -> Option<bool>;

/// Relies on `regex::Regex::new`, which fails on a pattern that does not
/// compile, and `regex::Regex::is_match`, which tells whether the pattern
/// matches somewhere in the text. The outcome depends on the two strings alone.
#[verifier::external_body]
pub(crate) fn regex_is_match(pattern: &str, text: &str) -> (r: Option<bool>)
    ensures
        r == regex_verdict(pattern@, text@),
{
    match regex::Regex::new(pattern) {
        Ok(re) => Some(re.is_match(text)),
        Err(_) => None,
    }
}

/// Why `test` could not evaluate its arguments.
#[derive(Clone, Copy, Debug, PartialEq, Eq, Structural)]
pub enum TestError {
    /// No arguments at all.
    NoArguments,
    /// Called as `[` without a closing `]`.
    ExpectedBracket,
    /// Not exactly two operands and an operator.
    Usage,
    /// The operator is none of `==`, `!=`, `=~`.
    UnknownOperator,
    /// The pattern of `=~` does not compile.
    BadPattern,
}

/// The comparisons `test` knows.
#[derive(Clone, Copy, Debug, PartialEq, Eq, Structural)]
pub enum TestOp {
    Equal,
    NotEqual,
    Match,
}

/// A parsed `test` expression.
#[derive(Clone, Debug)]
pub struct TestExpr {
    pub invert: bool,
    pub lhs: String,
    pub op: TestOp,
    pub rhs: String,
}

/// The operator a word names.
pub open spec fn op_of(w: Seq<char>) -> Option<TestOp> {
    if w == seq!['=', '='] {
        Some(TestOp::Equal)
    } else if w == seq!['!', '='] {
        Some(TestOp::NotEqual)
    } else if w == seq!['=', '~'] {
        Some(TestOp::Match)
    } else {
        None
    }
}

/// The words after `[ ... ]` and a leading `!` are handled: whether to
/// invert, and the operand words, the first word (the command name) dropped.
pub open spec fn test_operands(args: Seq<Seq<char>>) -> Result<(bool, Seq<Seq<char>>), TestError> {
    if args.len() == 0 {
        Err(TestError::NoArguments)
    } else if args[0] == seq!['['] && args.last() != seq![']'] {
        Err(TestError::ExpectedBracket)
    } else {
        let a = if args[0] == seq!['['] { args.drop_last() } else { args };
        if a.len() > 1 && a[1] == seq!['!'] {
            Ok((true, a.subrange(2, a.len() as int)))
        } else {
            Ok((false, if a.len() > 0 { a.drop_first() } else { a }))
        }
    }
}

/// The parse of `test`'s arguments: `[!] LHS OP RHS`, the command name first.
pub open spec fn test_parse_spec(args: Seq<Seq<char>>) -> Result<(bool, Seq<char>, TestOp, Seq<char>), TestError> {
    match test_operands(args) {
        Err(e) => Err(e),
        Ok((invert, ops)) => if ops.len() != 3 {
            Err(TestError::Usage)
        } else {
            match op_of(ops[1]) {
                Some(op) => Ok((invert, ops[0], op, ops[2])),
                None => Err(TestError::UnknownOperator),
            }
        },
    }
}

/// The status of an expression, given the regular expression's verdict
/// when the operator is `=~`.
pub open spec fn test_eval_spec(invert: bool, lhs: Seq<char>, op: TestOp, rhs: Seq<char>, verdict: Option<bool>) -> Result<ExitCode, TestError> {
    let holds: Option<bool> = match op {
        TestOp::Equal => Some(lhs == rhs),
        TestOp::NotEqual => Some(lhs != rhs),
        TestOp::Match => verdict,
    };
    match holds {
        None => Err(TestError::BadPattern),
        Some(h) => Ok(if h != invert { ExitCode::Success } else { ExitCode::Failure(1) }),
    }
}

/// The outcome of `test` on its arguments.
pub open spec fn test_spec(args: Seq<Seq<char>>) -> Result<ExitCode, TestError> {
    match test_parse_spec(args) {
        Err(e) => Err(e),
        Ok((invert, lhs, op, rhs)) => test_eval_spec(invert, lhs, op, rhs, regex_verdict(rhs, lhs)),
    }
}

fn word_is(w: &String, lit: &str) -> (r: bool)
    ensures
        r == (w@ == lit@),
{
    same_text(w.as_str(), lit)
}

/// Parse the arguments of `test`, the command name first.
pub fn test_parse(args: &Vec<String>) -> (r: Result<TestExpr, TestError>)
    ensures
        match test_parse_spec(words(args@)) {
            Ok((invert, lhs, op, rhs)) => r is Ok && r->Ok_0.invert == invert && r->Ok_0.lhs@ == lhs
                && r->Ok_0.op == op && r->Ok_0.rhs@ == rhs,
            Err(e) => r == Err::<TestExpr, TestError>(e),
        },
{
    proof {
        reveal_strlit("[");
        reveal_strlit("]");
        reveal_strlit("!");
        reveal_strlit("==");
        reveal_strlit("!=");
        reveal_strlit("=~");
        assert("["@ =~= seq!['[']);
        assert("]"@ =~= seq![']']);
        assert("!"@ =~= seq!['!']);
        assert("=="@ =~= seq!['=', '=']);
        assert("!="@ =~= seq!['!', '=']);
        assert("=~"@ =~= seq!['=', '~']);
    }
    let ghost w = words(args@);
    let n = args.len();
    if n == 0 {
        return Err(TestError::NoArguments);
    }
    let bracket = word_is(&args[0], "[");
    if bracket && !word_is(&args[n - 1], "]") {
        return Err(TestError::ExpectedBracket);
    }
    let end = if bracket { n - 1 } else { n };
    let ghost a = if w[0] == seq!['['] { w.drop_last() } else { w };
    assert(a =~= w.subrange(0, end as int));
    let invert = end > 1 && word_is(&args[1], "!");
    let first: usize = if invert { 2 } else { if end > 0 { 1 } else { 0 } };
    let ghost ops = a.subrange(first as int, end as int);
    assert(test_operands(w) == Ok::<(bool, Seq<Seq<char>>), TestError>((invert, ops))) by {
        if !invert && end > 0 {
            assert(a.drop_first() =~= ops);
        }
        if !invert && end == 0 {
            assert(a =~= ops);
        }
    }
    if end - first != 3 {
        return Err(TestError::Usage);
    }
    assert(ops[0] == args@[first as int]@);
    assert(ops[1] == args@[first + 1]@);
    assert(ops[2] == args@[first + 2]@);
    let op_word = &args[first + 1];
    let op = if word_is(op_word, "==") {
        TestOp::Equal
    } else if word_is(op_word, "!=") {
        TestOp::NotEqual
    } else if word_is(op_word, "=~") {
        TestOp::Match
    } else {
        return Err(TestError::UnknownOperator);
    };
    Ok(TestExpr { invert, lhs: args[first].clone(), op, rhs: args[first + 2].clone() })
}

/// Evaluate a parsed expression; `verdict` is whether the pattern `rhs`
/// matches `lhs`, as the regular expression engine reports it, when the
/// operator is `=~`. A true comparison is success, unless inverted.
pub fn test_eval(expr: &TestExpr, verdict: Option<bool>) -> (r: Result<ExitCode, TestError>)
    ensures
        r == test_eval_spec(expr.invert, expr.lhs@, expr.op, expr.rhs@, verdict),
{
    let holds = match expr.op {
        TestOp::Equal => same_text(expr.lhs.as_str(), expr.rhs.as_str()),
        TestOp::NotEqual => !same_text(expr.lhs.as_str(), expr.rhs.as_str()),
        TestOp::Match => match verdict {
            Some(v) => v,
            None => {
                return Err(TestError::BadPattern);
            },
        },
    };
    if holds != expr.invert {
        Ok(ExitCode::Success)
    } else {
        Ok(ExitCode::failure())
    }
}

/// Evaluate a conditional expression: `test [!] LHS OP RHS`, also called as
/// `[ ... ]`.
pub fn test(args: &Vec<String>) -> (r: Result<ExitCode, TestError>)
    ensures
        r == test_spec(words(args@)),
{
    let expr = match test_parse(args) {
        Ok(e) => e,
        Err(e) => {
            return Err(e);
        },
    };
    let verdict = match expr.op {
        TestOp::Match => regex_is_match(expr.rhs.as_str(), expr.lhs.as_str()),
        _ => None,
    };
    test_eval(&expr, verdict)
}

} // verus!
