//! Variable expansion: how `${name}` is resolved.
use crate::text::{chars_of, string_of};
use crate::tokens::words;
use crate::vars::VarMap;
use vstd::prelude::*;

verus! {

/// The words joined with single spaces.
pub open spec fn join_words(ws: Seq<Seq<char>>) -> Seq<char>
    decreases ws.len(),
{
    if ws.len() == 0 {
        seq![]
    } else if ws.len() == 1 {
        ws[0]
    } else {
        join_words(ws.drop_last()) + seq![' '] + ws.last()
    }
}

/// All arguments but the first.
pub open spec fn tail_words(args: Seq<Seq<char>>) -> Seq<Seq<char>> {
    if args.len() == 0 {
        seq![]
    } else {
        args.drop_first()
    }
}

/// Every character is an ASCII digit.
pub open spec fn all_digits(s: Seq<char>) -> bool {
    forall|i: int| 0 <= i < s.len() ==> '0' <= #[trigger] s[i] <= '9'
}

/// The value of a string of decimal digits.
pub open spec fn digits_value(s: Seq<char>) -> nat
    decreases s.len(),
{
    if s.len() == 0 {
        0
    } else {
        digits_value(s.drop_last()) * 10 + ((s.last() as int) - ('0' as int)) as nat
    }
}

/// A byte written in decimal, as `u8`'s `FromStr` reads it: an optional `+`,
/// then one or more digits, with a value of at most 255.
pub open spec fn byte_of(s: Seq<char>) -> Option<u8> {
    let d = if s.len() > 0 && s[0] == '+' { s.drop_first() } else { s };
    if d.len() > 0 && all_digits(d) && digits_value(d) <= 255 {
        Some(digits_value(d) as u8)
    } else {
        None
    }
}

/// What `${name}` expands to: the environment first, then the shell's own
/// variables, then `@` for all arguments but the first joined by spaces, then a
/// decimal index into the arguments; anything else is empty.
pub open spec fn lookup(
    env: Map<Seq<char>, Seq<char>>,
    vars: Map<Seq<char>, Seq<char>>,
    args: Seq<Seq<char>>,
    name: Seq<char>,
) -> Seq<char> {
    if env.contains_key(name) {
        env[name]
    } else if vars.contains_key(name) {
        vars[name]
    } else if name == seq!['@'] {
        join_words(tail_words(args))
    } else {
        match byte_of(name) {
            Some(n) => if (n as int) < args.len() { args[n as int] } else { seq![] },
            None => seq![],
        }
    }
}

/// A variable that both the environment and the shell define expands to the
/// environment's value.
pub proof fn lemma_environment_wins(
    env: Map<Seq<char>, Seq<char>>,
    vars: Map<Seq<char>, Seq<char>>,
    args: Seq<Seq<char>>,
    name: Seq<char>,
)
    requires
        env.contains_key(name),
        vars.contains_key(name),
    ensures
        lookup(env, vars, args, name) == env[name],
{
}

proof fn lemma_digits_grow(s: Seq<char>, t: Seq<char>)
    requires
        all_digits(s + t),
    ensures
        digits_value(s + t) >= digits_value(s),
    decreases t.len(),
{
    if t.len() > 0 {
        let u = s + t;
        assert(u.drop_last() =~= s + t.drop_last());
        assert(all_digits(s + t.drop_last())) by {
            assert forall|i: int| 0 <= i < (s + t.drop_last()).len() implies '0' <= #[trigger] (s + t.drop_last())[i] <= '9' by {
                assert((s + t.drop_last())[i] == u[i]);
            }
        }
        lemma_digits_grow(s, t.drop_last());
    } else {
        assert(s + t =~= s);
    }
}

/// Read a byte written in decimal, as `u8`'s `FromStr` does.
pub fn parse_byte(s: &Vec<char>) -> (r: Option<u8>)
    ensures
        r == byte_of(s@),
{
    let mut start: usize = 0;
    if s.len() > 0 && s[0] == '+' {
        start = 1;
    }
    let ghost d = if s@.len() > 0 && s@[0] == '+' { s@.drop_first() } else { s@ };
    assert(d =~= s@.subrange(start as int, s@.len() as int));
    if start >= s.len() {
        return None;
    }
    let mut v: u32 = 0;
    let mut i: usize = start;
    while i < s.len()
        invariant
            start <= i <= s@.len(),
            d == s@.subrange(start as int, s@.len() as int),
            d == (if s@.len() > 0 && s@[0] == '+' { s@.drop_first() } else { s@ }),
            all_digits(s@.subrange(start as int, i as int)),
            v as nat == digits_value(s@.subrange(start as int, i as int)),
            v <= 255,
        decreases s@.len() - i,
    {
        let c = s[i];
        let ghost p = s@.subrange(start as int, i as int);
        let ghost q = s@.subrange(start as int, i + 1);
        assert(q.drop_last() =~= p);
        if c < '0' || c > '9' {
            assert(d[i - start] == c);
            assert(!all_digits(d));
            assert(byte_of(s@) is None);
            return None;
        }
        assert(all_digits(q)) by {
            assert forall|j: int| 0 <= j < q.len() implies '0' <= #[trigger] q[j] <= '9' by {
                if j < p.len() {
                    assert(q[j] == p[j]);
                }
            }
        }
        let digit = (c as u32) - ('0' as u32);
        v = v * 10 + digit;
        assert(q.last() == c);
        assert(v as nat == digits_value(q));
        i = i + 1;
        if v > 255 {
            proof {
                let rest = s@.subrange(i as int, s@.len() as int);
                assert(d =~= q + rest);
                if all_digits(d) {
                    lemma_digits_grow(q, rest);
                }
                assert(byte_of(s@) is None);
            }
            return None;
        }
    }
    Some(v as u8)
}

/// All words but the first, joined with single spaces.
fn join_rest(args: &Vec<String>) -> (r: Vec<char>)
    ensures
        r@ == join_words(tail_words(words(args@))),
{
    let ghost ws = words(args@);
    let mut acc: Vec<char> = Vec::new();
    if args.len() < 2 {
        assert(ws.len() == args@.len());
        assert(tail_words(ws) =~= Seq::<Seq<char>>::empty());
        return acc;
    }
    acc = chars_of(args[1].as_str());
    let mut i: usize = 2;
    assert(ws.subrange(1, 2) =~= seq![ws[1]]);
    while i < args.len()
        invariant
            2 <= i <= args@.len(),
            ws == words(args@),
            acc@ == join_words(ws.subrange(1, i as int)),
        decreases args@.len() - i,
    {
        let w = chars_of(args[i].as_str());
        acc.push(' ');
        let mut j: usize = 0;
        let ghost before = acc@;
        while j < w.len()
            invariant
                j <= w@.len(),
                acc@ == before + w@.subrange(0, j as int),
            decreases w@.len() - j,
        {
            acc.push(w[j]);
            j = j + 1;
            assert(acc@ =~= before + w@.subrange(0, j as int));
        }
        assert(ws.subrange(1, i + 1).drop_last() =~= ws.subrange(1, i as int));
        assert(w@ =~= w@.subrange(0, j as int));
        assert(acc@ =~= join_words(ws.subrange(1, i as int)) + seq![' '] + w@);
        i = i + 1;
    }
    assert(ws.subrange(1, i as int) =~= tail_words(ws));
    acc
}

/// The value that `${name}` expands to.
pub fn lookup_variable(env: &VarMap, vars: &VarMap, args: &Vec<String>, name: &Vec<char>) -> (r: Vec<char>)
    requires
        env.wf(),
        vars.wf(),
    ensures
        r@ == lookup(env@, vars@, words(args@), name@),
{
    let key = string_of(name);
    if let Some(v) = env.get(key.as_str()) {
        return chars_of(v.as_str());
    }
    if let Some(v) = vars.get(key.as_str()) {
        return chars_of(v.as_str());
    }
    if name.len() == 1 && name[0] == '@' {
        assert(name@ =~= seq!['@']);
        return join_rest(args);
    }
    assert(name@ != seq!['@']);
    match parse_byte(name) {
        Some(n) => {
            if (n as usize) < args.len() {
                chars_of(args[n as usize].as_str())
            } else {
                Vec::new()
            }
        },
        None => Vec::new(),
    }
}

} // verus!
