//! The text that `echo` writes, with its escape sequences.
use crate::text::{chars_of, string_of};
use crate::tokens::words;
use vstd::prelude::*;

verus! {

/// The value of a hexadecimal digit.
pub open spec fn hex_val(c: char) -> Option<nat> {
    if '0' <= c <= '9' {
        Some((c as int - '0' as int) as nat)
    } else if 'a' <= c <= 'f' {
        Some((c as int - 'a' as int + 10) as nat)
    } else if 'A' <= c <= 'F' {
        Some((c as int - 'A' as int + 10) as nat)
    } else {
        None
    }
}

/// The digit at `i`, where a missing or non-hexadecimal character counts 0.
pub open spec fn digit_or_zero(s: Seq<char>, i: int) -> nat {
    if 0 <= i < s.len() {
        match hex_val(s[i]) {
            Some(v) => v,
            None => 0,
        }
    } else {
        0
    }
}

/// The value of the first `n` positions of `s` read as hexadecimal digits.
pub open spec fn hex_prefix(s: Seq<char>, n: nat) -> nat
    decreases n,
{
    if n == 0 {
        0
    } else {
        hex_prefix(s, (n - 1) as nat) * 16 + digit_or_zero(s, n - 1)
    }
}

/// A Unicode scalar value.
pub open spec fn is_scalar(v: nat) -> bool {
    v <= 0x10ffff && !(0xd800 <= v <= 0xdfff)
}

/// The character that a one-letter escape stands for.
pub open spec fn escaped(e: char) -> char {
    if e == 'e' {
        '\u{1b}'
    } else if e == 'b' {
        '\u{8}'
    } else if e == 't' {
        '\t'
    } else if e == '0' {
        '\0'
    } else if e == 'r' {
        '\r'
    } else if e == 'n' {
        '\n'
    } else {
        e
    }
}

/// The text with its escapes replaced: `\e \b \t \0 \r \n \\`, `\xHH` and
/// `\uHHHHHHHH` (a missing or bad digit counts 0, and a value that is no
/// character gives nothing); a backslash before another character stands
/// for that character, and a backslash at the end for itself.
pub open spec fn unescape_spec(s: Seq<char>) -> Seq<char>
    decreases s.len(),
{
    if s.len() == 0 {
        seq![]
    } else if s[0] != '\\' {
        seq![s[0]] + unescape_spec(s.drop_first())
    } else if s.len() == 1 {
        seq!['\\']
    } else {
        let e = s[1];
        let rest = s.subrange(2, s.len() as int);
        if e == 'x' || e == 'u' {
            let n: nat = if e == 'x' { 2 } else { 8 };
            let v = hex_prefix(rest, n);
            let k = if n <= rest.len() { n as int } else { rest.len() as int };
            (if is_scalar(v) { seq![v as char] } else { seq![] }) + unescape_spec(rest.subrange(k, rest.len() as int))
        } else {
            seq![escaped(e)] + unescape_spec(rest)
        }
    }
}

/// Relies on `char::from_u32`: the character with that code, if the code is
/// a Unicode scalar value.
#[verifier::external_body]
fn char_from_code(v: u32) -> (r: Option<char>)
    ensures
        is_scalar(v as nat) ==> r == Some(v as char),
        !is_scalar(v as nat) ==> r is None,
{
    char::from_u32(v)
}

fn hex_digit(c: char) -> (r: u32)
    ensures
        r as nat == match hex_val(c) {
            Some(v) => v,
            None => 0,
        },
{
    if '0' <= c && c <= '9' {
        (c as u32) - ('0' as u32)
    } else if 'a' <= c && c <= 'f' {
        (c as u32) - ('a' as u32) + 10
    } else if 'A' <= c && c <= 'F' {
        (c as u32) - ('A' as u32) + 10
    } else {
        0
    }
}

proof fn lemma_hex_prefix_bound(s: Seq<char>, n: nat)
    ensures
        hex_prefix(s, n) < pow16(n),
    decreases n,
{
    if n > 0 {
        lemma_hex_prefix_bound(s, (n - 1) as nat);
        assert(digit_or_zero(s, n - 1) < 16);
        assert(hex_prefix(s, n) <= (pow16((n - 1) as nat) - 1) * 16 + 15) by (nonlinear_arith)
            requires
                hex_prefix(s, (n - 1) as nat) < pow16((n - 1) as nat),
                digit_or_zero(s, n - 1) < 16,
                hex_prefix(s, n) == hex_prefix(s, (n - 1) as nat) * 16 + digit_or_zero(s, n - 1),
        ;
    }
}

/// Sixteen to the power `n`.
pub open spec fn pow16(n: nat) -> nat
    decreases n,
{
    if n == 0 {
        1
    } else {
        pow16((n - 1) as nat) * 16
    }
}

/// Unescape an escaped string.
pub fn unescape(escaped_text: &str) -> (r: String)
    ensures
        r@ == unescape_spec(escaped_text@),
{
    let s = chars_of(escaped_text);
    let ghost sv = s@;
    let mut out: Vec<char> = Vec::new();
    let mut i: usize = 0;
    assert(sv.subrange(0, sv.len() as int) =~= sv);
    while i < s.len()
        invariant
            i <= sv.len(),
            sv == s@,
            sv == escaped_text@,
            unescape_spec(sv) == out@ + unescape_spec(sv.subrange(i as int, sv.len() as int)),
        decreases sv.len() - i,
    {
        let ghost t = sv.subrange(i as int, sv.len() as int);
        let ghost o0 = out@;
        let c = s[i];
        assert(t[0] == c);
        if c != '\\' {
            out.push(c);
            i = i + 1;
            assert(t.drop_first() =~= sv.subrange(i as int, sv.len() as int));
            assert(out@ =~= o0 + seq![c]);
        } else if i + 1 == s.len() {
            out.push('\\');
            i = i + 1;
            assert(sv.subrange(i as int, sv.len() as int) =~= Seq::<char>::empty());
            assert(out@ =~= o0 + seq!['\\']);
        } else {
            let e = s[i + 1];
            assert(t[1] == e);
            let ghost rest = t.subrange(2, t.len() as int);
            assert(rest =~= sv.subrange(i + 2, sv.len() as int));
            if e == 'x' || e == 'u' {
                let n: usize = if e == 'x' { 2 } else { 8 };
                let mut v: u32 = 0;
                let mut j: usize = 0;
                let start = i + 2;
                proof {
                    lemma_hex_prefix_bound(rest, 8);
                    lemma_pow16_eight();
                }
                while j < n
                    invariant
                        j <= n,
                        n == 2 || n == 8,
                        start == i + 2,
                        i + 1 < sv.len(),
                        sv == s@,
                        rest == sv.subrange(start as int, sv.len() as int),
                        v as nat == hex_prefix(rest, j as nat),
                    decreases n - j,
                {
                    let d = if j < s.len() - start { hex_digit(s[start + j]) } else { 0 };
                    assert(d as nat == digit_or_zero(rest, j as int));
                    proof {
                        lemma_hex_prefix_bound(rest, (j + 1) as nat);
                        lemma_pow16_mono((j + 1) as nat, 8);
                        lemma_pow16_eight();
                    }
                    v = v * 16 + d;
                    j = j + 1;
                }
                match char_from_code(v) {
                    Some(ch) => {
                        out.push(ch);
                    },
                    None => {},
                }
                let remaining = s.len() - start;
                let k = if n <= remaining { n } else { remaining };
                i = start + k;
                assert(rest.subrange(k as int, rest.len() as int) =~= sv.subrange(i as int, sv.len() as int));
                proof {
                    if is_scalar(v as nat) {
                        assert(out@ =~= o0 + seq![v as char]);
                    } else {
                        assert(out@ =~= o0 + Seq::<char>::empty());
                    }
                }
            } else {
                let ch = if e == 'e' {
                    '\u{1b}'
                } else if e == 'b' {
                    '\u{8}'
                } else if e == 't' {
                    '\t'
                } else if e == '0' {
                    '\0'
                } else if e == 'r' {
                    '\r'
                } else if e == 'n' {
                    '\n'
                } else {
                    e
                };
                out.push(ch);
                i = i + 2;
                assert(out@ =~= o0 + seq![escaped(e)]);
            }
        }
    }
    assert(sv.subrange(i as int, sv.len() as int) =~= Seq::<char>::empty());
    assert(out@ =~= out@ + Seq::<char>::empty());
    string_of(&out)
}

proof fn lemma_pow16_eight()
    ensures
        pow16(8) == 0x100000000,
{
    reveal_with_fuel(pow16, 9);
}

proof fn lemma_pow16_mono(a: nat, b: nat)
    requires
        a <= b,
    ensures
        pow16(a) <= pow16(b),
    decreases b,
{
    if a < b {
        lemma_pow16_mono(a, (b - 1) as nat);
    }
}

/// The words that `echo` writes: joined by single spaces, each unescaped if
/// asked to.
pub open spec fn echo_items(items: Seq<Seq<char>>, escapes: bool) -> Seq<char>
    decreases items.len(),
{
    if items.len() == 0 {
        seq![]
    } else {
        let w = if escapes { unescape_spec(items.last()) } else { items.last() };
        if items.len() == 1 {
            w
        } else {
            echo_items(items.drop_last(), escapes) + seq![' '] + w
        }
    }
}

/// What `echo` writes for its words: the words, then a line feed unless
/// `no_newline` is set or the last word written already ends with one.
pub open spec fn echo_spec(items: Seq<Seq<char>>, no_newline: bool, escapes: bool) -> Seq<char> {
    let body = echo_items(items, escapes);
    let last_ends = items.len() > 0 && {
        let w = if escapes { unescape_spec(items.last()) } else { items.last() };
        w.len() > 0 && w.last() == '\n'
    };
    if !no_newline && !last_ends {
        body.push('\n')
    } else {
        body
    }
}

/// The text that `echo` writes for the words `items`.
pub fn echo_text(items: &Vec<String>, no_newline: bool, escapes: bool) -> (r: String)
    ensures
        r@ == echo_spec(words(items@), no_newline, escapes),
{
    let ghost ws = words(items@);
    let mut out: Vec<char> = Vec::new();
    let mut ends = false;
    let mut i: usize = 0;
    while i < items.len()
        invariant
            i <= items@.len(),
            ws == words(items@),
            out@ == echo_items(ws.subrange(0, i as int), escapes),
            ends == (i > 0 && {
                let w = if escapes { unescape_spec(ws[i - 1]) } else { ws[i - 1] };
                w.len() > 0 && w.last() == '\n'
            }),
        decreases items@.len() - i,
    {
        let w = if escapes { chars_of(unescape(items[i].as_str()).as_str()) } else { chars_of(items[i].as_str()) };
        let ghost o0 = out@;
        if i > 0 {
            out.push(' ');
        }
        let mut j: usize = 0;
        let ghost o1 = out@;
        while j < w.len()
            invariant
                j <= w@.len(),
                out@ == o1 + w@.subrange(0, j as int),
            decreases w@.len() - j,
        {
            out.push(w[j]);
            j = j + 1;
            assert(out@ =~= o1 + w@.subrange(0, j as int));
        }
        ends = w.len() > 0 && w[w.len() - 1] == '\n';
        let ghost p = ws.subrange(0, i + 1);
        assert(p.drop_last() =~= ws.subrange(0, i as int));
        assert(p.last() == ws[i as int]);
        assert(w@ =~= w@.subrange(0, j as int));
        if i == 0 {
            assert(out@ =~= echo_items(p, escapes));
        } else {
            assert(out@ =~= echo_items(p, escapes));
        }
        i = i + 1;
    }
    assert(ws.subrange(0, i as int) =~= ws);
    if !no_newline && !ends {
        out.push('\n');
    }
    string_of(&out)
}

} // verus!
