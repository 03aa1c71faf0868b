//! `cowsay`: text in a speech bubble.
use crate::filters::byte_len;
use crate::lexer::{is_space, is_white_space};
use crate::text::{chars_of, string_of};
use crate::tokens::words;
use vstd::prelude::*;

verus! {

/// The widest line a bubble holds, in bytes.
pub const MAX_WIDTH: usize = 40;

/// The lines `textwrap` breaks `text` into for the given width.
pub uninterp spec fn wrapped_lines(text: Seq<char>, width: usize) -> Seq<Seq<char>>;

/// Relies on `textwrap::wrap`: the lines, in order, that the text is broken
/// into so that each fits the width where its words allow.
#[verifier::external_body]
fn wrap_text(text: &str, width: usize) -> (r: Vec<String>)
    requires
        width > 0,
    ensures
        words(r@) == wrapped_lines(text@, width),
{
    textwrap::wrap(text, width).into_iter().map(|line| line.into_owned()).collect()
}

/// The text without white space at either end, as `str::trim` gives it.
pub open spec fn trimmed_text(s: Seq<char>) -> Seq<char>
    decreases s.len(),
{
    if s.len() > 0 && is_space(s[0]) {
        trimmed_text(s.drop_first())
    } else if s.len() > 0 && is_space(s.last()) {
        trimmed_text(s.drop_last())
    } else {
        s
    }
}

/// `text` without white space at either end.
pub fn trim_text(text: &str) -> (r: Vec<char>)
    ensures
        r@ == trimmed_text(text@),
{
    let cs = chars_of(text);
    let mut lo: usize = 0;
    let mut hi: usize = cs.len();
    assert(cs@.subrange(0, hi as int) =~= text@);
    while lo < hi && is_white_space(cs[lo])
        invariant
            lo <= hi,
            hi == cs@.len(),
            cs@ == text@,
            trimmed_text(cs@.subrange(lo as int, hi as int)) == trimmed_text(text@),
        decreases hi - lo,
    {
        let ghost t = cs@.subrange(lo as int, hi as int);
        assert(t.drop_first() =~= cs@.subrange(lo + 1, hi as int));
        lo = lo + 1;
    }
    while lo < hi && is_white_space(cs[hi - 1])
        invariant
            lo <= hi,
            hi <= cs@.len(),
            lo < hi ==> !is_space(cs@[lo as int]),
            trimmed_text(cs@.subrange(lo as int, hi as int)) == trimmed_text(text@),
        decreases hi - lo,
    {
        let ghost t = cs@.subrange(lo as int, hi as int);
        assert(t.drop_last() =~= cs@.subrange(lo as int, hi - 1));
        assert(t[0] == cs@[lo as int]);
        hi = hi - 1;
    }
    let mut r: Vec<char> = Vec::new();
    let mut i = lo;
    while i < hi
        invariant
            lo <= i <= hi,
            hi <= cs@.len(),
            r@ == cs@.subrange(lo as int, i as int),
        decreases hi - i,
    {
        r.push(cs[i]);
        i = i + 1;
        assert(r@ =~= cs@.subrange(lo as int, i as int));
    }
    proof {
        let t = cs@.subrange(lo as int, hi as int);
        if t.len() > 0 {
            assert(t[0] == cs@[lo as int]);
            assert(t.last() == cs@[hi - 1]);
        }
    }
    r
}

/// The widest of the lines, in bytes.
pub open spec fn widest(lines: Seq<Seq<char>>) -> nat
    decreases lines.len(),
{
    if lines.len() == 0 {
        0
    } else {
        let w = widest(lines.drop_last());
        if byte_len(lines.last()) > w { byte_len(lines.last()) } else { w }
    }
}

/// `n` copies of `c`.
pub open spec fn repeat(c: char, n: nat) -> Seq<char> {
    Seq::new(n, |i: int| c)
}

/// The characters that open and close line `i` of `n`.
pub open spec fn delimiters(i: int, n: int) -> (char, char) {
    if n > 1 {
        if i == 0 {
            ('/', '\\')
        } else if i == n - 1 {
            ('\\', '/')
        } else {
            ('|', '|')
        }
    } else {
        ('<', '>')
    }
}

/// Line `i` of the bubble: the line padded to the widest, between its delimiters.
pub open spec fn bubble_line(lines: Seq<Seq<char>>, i: int) -> Seq<char> {
    let (l, r) = delimiters(i, lines.len() as int);
    seq![l, ' '] + lines[i] + repeat(' ', (widest(lines) - byte_len(lines[i]) + 1) as nat) + seq![r, '\n']
}

/// The first `k` lines of the bubble's body.
pub open spec fn bubble_body(lines: Seq<Seq<char>>, k: nat) -> Seq<char>
    decreases k,
{
    if k == 0 {
        seq![]
    } else {
        bubble_body(lines, (k - 1) as nat) + bubble_line(lines, k - 1)
    }
}

/// The speech bubble around the lines.
pub open spec fn bubble_spec(lines: Seq<Seq<char>>) -> Seq<char> {
    let w = widest(lines);
    seq![' '] + repeat('_', w + 2) + seq!['\n'] + bubble_body(lines, lines.len()) + seq![' '] + repeat('-', w + 2) + seq!['\n']
}

proof fn lemma_widest(lines: Seq<Seq<char>>, i: int)
    requires
        0 <= i < lines.len(),
    ensures
        byte_len(lines[i]) <= widest(lines),
    decreases lines.len(),
{
    if i < lines.len() - 1 {
        lemma_widest(lines.drop_last(), i);
        assert(lines.drop_last()[i] == lines[i]);
    }
}

fn push_repeat(out: &mut Vec<char>, c: char, n: usize)
    ensures
        final(out)@ == old(out)@ + repeat(c, n as nat),
{
    let ghost o0 = out@;
    let mut i: usize = 0;
    while i < n
        invariant
            i <= n,
            out@ == o0 + repeat(c, i as nat),
        decreases n - i,
    {
        out.push(c);
        i = i + 1;
        assert(out@ =~= o0 + repeat(c, i as nat));
    }
}

fn byte_count(s: &Vec<char>) -> (r: Option<usize>)
    ensures
        match r {
            Some(n) => n as nat == byte_len(s@),
            None => byte_len(s@) > usize::MAX,
        },
{
    let mut n: usize = 0;
    let mut i: usize = 0;
    while i < s.len()
        invariant
            i <= s@.len(),
            n as nat == byte_len(s@.subrange(0, i as int)),
        decreases s@.len() - i,
    {
        let c = s[i];
        let b: usize = if (c as u32) < 0x80 {
            1
        } else if (c as u32) < 0x800 {
            2
        } else if (c as u32) < 0x10000 {
            3
        } else {
            4
        };
        let ghost q = s@.subrange(0, i + 1);
        assert(q.drop_last() =~= s@.subrange(0, i as int));
        if n > usize::MAX - b {
            proof {
                lemma_byte_len_grows(s@, i + 1);
            }
            return None;
        }
        n = n + b;
        i = i + 1;
    }
    assert(s@.subrange(0, i as int) =~= s@);
    Some(n)
}

proof fn lemma_byte_len_grows(s: Seq<char>, k: int)
    requires
        0 <= k <= s.len(),
    ensures
        byte_len(s.subrange(0, k)) <= byte_len(s),
    decreases s.len() - k,
{
    if k < s.len() {
        lemma_byte_len_grows(s, k + 1);
        assert(s.subrange(0, k + 1).drop_last() =~= s.subrange(0, k));
    } else {
        assert(s.subrange(0, k) =~= s);
    }
}

/// The speech bubble around already wrapped lines; `None` when a line is
/// too wide for the machine to count its padding.
pub fn bubble(lines: &Vec<String>) -> (r: Option<String>)
    ensures
        widest(words(lines@)) + 3 <= usize::MAX ==> r is Some && r->0@ == bubble_spec(words(lines@)),
        widest(words(lines@)) + 3 > usize::MAX ==> r is None,
{
    let ghost ls = words(lines@);
    let mut texts: Vec<Vec<char>> = Vec::new();
    let mut lens: Vec<usize> = Vec::new();
    let mut width: usize = 0;
    let mut i: usize = 0;
    while i < lines.len()
        invariant
            i <= lines@.len(),
            ls == words(lines@),
            texts@.len() == i,
            lens@.len() == i,
            forall|k: int| 0 <= k < i ==> #[trigger] texts@[k]@ == ls[k],
            forall|k: int| 0 <= k < i ==> #[trigger] lens@[k] as nat == byte_len(ls[k]),
            width as nat == widest(ls.subrange(0, i as int)),
            width + 3 <= usize::MAX,
        decreases lines@.len() - i,
    {
        let t = chars_of(lines[i].as_str());
        let ghost q = ls.subrange(0, i + 1);
        assert(q.drop_last() =~= ls.subrange(0, i as int));
        assert(q.last() == ls[i as int]);
        let n = match byte_count(&t) {
            Some(n) => n,
            None => {
                proof {
                    lemma_widest(ls, i as int);
                }
                return None;
            },
        };
        if n > usize::MAX - 3 {
            proof {
                lemma_widest(ls, i as int);
            }
            return None;
        }
        if n > width {
            width = n;
        }
        texts.push(t);
        lens.push(n);
        i = i + 1;
    }
    assert(ls.subrange(0, i as int) =~= ls);
    let mut out: Vec<char> = vec![' '];
    push_repeat(&mut out, '_', width + 2);
    out.push('\n');
    let ghost head = seq![' '] + repeat('_', (width + 2) as nat) + seq!['\n'];
    assert(out@ =~= head);
    let count = texts.len();
    let mut j: usize = 0;
    while j < count
        invariant
            j <= count,
            count == texts@.len(),
            count == ls.len(),
            lens@.len() == count,
            forall|k: int| 0 <= k < count ==> #[trigger] texts@[k]@ == ls[k],
            forall|k: int| 0 <= k < count ==> #[trigger] lens@[k] as nat == byte_len(ls[k]),
            width as nat == widest(ls),
            width + 3 <= usize::MAX,
            out@ == head + bubble_body(ls, j as nat),
        decreases count - j,
    {
        let (l, r) = if count > 1 {
            if j == 0 {
                ('/', '\\')
            } else if j == count - 1 {
                ('\\', '/')
            } else {
                ('|', '|')
            }
        } else {
            ('<', '>')
        };
        let ghost o0 = out@;
        out.push(l);
        out.push(' ');
        let mut k: usize = 0;
        let ghost o1 = out@;
        while k < texts[j].len()
            invariant
                j < count,
                count == texts@.len(),
                k <= texts@[j as int]@.len(),
                out@ == o1 + texts@[j as int]@.subrange(0, k as int),
            decreases texts@[j as int]@.len() - k,
        {
            out.push(texts[j][k]);
            k = k + 1;
            assert(out@ =~= o1 + texts@[j as int]@.subrange(0, k as int));
        }
        assert(texts@[j as int]@.subrange(0, k as int) =~= ls[j as int]);
        proof {
            lemma_widest(ls, j as int);
        }
        push_repeat(&mut out, ' ', width - lens[j] + 1);
        out.push(r);
        out.push('\n');
        assert(out@ =~= o0 + bubble_line(ls, j as int));
        j = j + 1;
    }
    out.push(' ');
    push_repeat(&mut out, '-', width + 2);
    out.push('\n');
    assert(out@ =~= bubble_spec(ls));
    Some(string_of(&out))
}

/// What the cow says about `text`: the text trimmed and wrapped to
/// `MAX_WIDTH`, in a bubble.
pub fn cow_speech(text: &str) -> (r: Option<String>)
    ensures
        ({
            let ls = wrapped_lines(trimmed_text(text@), MAX_WIDTH);
            &&& widest(ls) + 3 <= usize::MAX ==> r is Some && r->0@ == bubble_spec(ls)
            &&& widest(ls) + 3 > usize::MAX ==> r is None
        }),
{
    let t = string_of(&trim_text(text));
    let lines = wrap_text(t.as_str(), MAX_WIDTH);
    bubble(&lines)
}

} // verus!
