//! Line filters of the userland: `rev`, `head`, `tail` and `grep`.
use crate::lexer::{is_space, is_white_space};
use crate::test_cmd::{regex_is_match, regex_verdict, TestError};
use crate::text::{chars_of, owned, string_of};
use crate::tokens::words;
use vstd::prelude::*;
use vstd::string::*;

verus! {

/// The characters of `s` in reverse order.
pub open spec fn reversed(s: Seq<char>) -> Seq<char> {
    Seq::new(s.len(), |i: int| s[s.len() - 1 - i])
}

/// A line with its characters reversed, as `rev` prints it.
pub fn rev_line(line: &str) -> (r: String)
    ensures
        r@ == reversed(line@),
{
    let cs = chars_of(line);
    let mut out: Vec<char> = Vec::new();
    let mut i: usize = cs.len();
    while i > 0
        invariant
            i <= cs@.len(),
            cs@ == line@,
            out@ == reversed(line@).subrange(0, (cs@.len() - i) as int),
        decreases i,
    {
        i = i - 1;
        out.push(cs[i]);
        assert(out@ =~= reversed(line@).subrange(0, (cs@.len() - i) as int));
    }
    assert(out@ =~= reversed(line@));
    string_of(&out)
}

/// The first `n` lines, as `head -n` prints them.
pub fn head_lines(lines: &Vec<String>, n: usize) -> (r: Vec<String>)
    ensures
        words(r@) == words(lines@).subrange(0, if (n as int) < lines@.len() { n as int } else { lines@.len() as int }),
{
    let end = if n < lines.len() { n } else { lines.len() };
    let mut r: Vec<String> = Vec::new();
    let mut i: usize = 0;
    while i < end
        invariant
            i <= end,
            end <= lines@.len(),
            words(r@) == words(lines@).subrange(0, i as int),
        decreases end - i,
    {
        let ghost r0 = r@;
        let x = lines[i].clone();
        r.push(x);
        assert(words(r@) =~= words(r0).push(x@));
        i = i + 1;
        assert(words(r@) =~= words(lines@).subrange(0, i as int));
    }
    r
}

/// A text cut at each line feed, as `str::split('\n')` cuts it: one more
/// piece than there are line feeds.
pub open spec fn pieces(s: Seq<char>) -> Seq<Seq<char>>
    decreases s.len(),
{
    if s.len() == 0 {
        seq![seq![]]
    } else {
        let p = pieces(s.drop_last());
        if s.last() == '\n' {
            p.push(seq![])
        } else {
            p.update(p.len() - 1, p.last().push(s.last()))
        }
    }
}

proof fn lemma_pieces_nonempty(s: Seq<char>)
    ensures
        pieces(s).len() >= 1,
    decreases s.len(),
{
    if s.len() > 0 {
        lemma_pieces_nonempty(s.drop_last());
    }
}

/// Pieces joined with line feeds.
pub open spec fn joined(p: Seq<Seq<char>>) -> Seq<char>
    decreases p.len(),
{
    if p.len() == 0 {
        seq![]
    } else if p.len() == 1 {
        p[0]
    } else {
        joined(p.drop_last()) + seq!['\n'] + p.last()
    }
}

/// What `tail -n` prints of a text: the last `n` lines and what follows the
/// last line feed.
pub open spec fn tail_spec(s: Seq<char>, n: nat) -> Seq<char> {
    let p = pieces(s);
    let start = if p.len() > n + 1 { p.len() - (n + 1) } else { 0 };
    joined(p.subrange(start as int, p.len() as int))
}

/// The end of a text that `tail -n` prints.
pub fn tail_text(contents: &str, n: usize) -> (r: String)
    ensures
        r@ == tail_spec(contents@, n as nat),
{
    let cs = chars_of(contents);
    let mut parts: Vec<Vec<char>> = vec![Vec::new()];
    let mut i: usize = 0;
    assert(parts@.map_values(|v: Vec<char>| v@) =~= pieces(cs@.subrange(0, 0)));
    while i < cs.len()
        invariant
            i <= cs@.len(),
            cs@ == contents@,
            parts@.len() >= 1,
            parts@.map_values(|v: Vec<char>| v@) == pieces(cs@.subrange(0, i as int)),
        decreases cs@.len() - i,
    {
        let c = cs[i];
        let ghost before = parts@.map_values(|v: Vec<char>| v@);
        let ghost pre = cs@.subrange(0, i + 1);
        assert(pre.drop_last() =~= cs@.subrange(0, i as int));
        if c == '\n' {
            parts.push(Vec::new());
            assert(parts@.map_values(|v: Vec<char>| v@) =~= before.push(seq![]));
        } else {
            let last = parts.len() - 1;
            let mut piece = parts.pop().unwrap();
            piece.push(c);
            parts.push(piece);
            assert(parts@.map_values(|v: Vec<char>| v@) =~= before.update(before.len() - 1, before.last().push(c)));
        }
        i = i + 1;
    }
    assert(cs@.subrange(0, i as int) =~= contents@);
    let ghost p = parts@.map_values(|v: Vec<char>| v@);
    let len = parts.len();
    let start = if len - 1 > n { len - 1 - n } else { 0 };
    let mut out: Vec<char> = Vec::new();
    let mut j: usize = start;
    while j < len
        invariant
            start <= j <= len,
            len == parts@.len(),
            len >= 1,
            p == parts@.map_values(|v: Vec<char>| v@),
            j > start ==> out@ == joined(p.subrange(start as int, j as int)),
            j == start ==> out@ == Seq::<char>::empty(),
        decreases len - j,
    {
        let ghost o0 = out@;
        if j > start {
            out.push('\n');
        }
        let mut k: usize = 0;
        let ghost o1 = out@;
        while k < parts[j].len()
            invariant
                k <= parts@[j as int]@.len(),
                j < len,
                len == parts@.len(),
                out@ == o1 + parts@[j as int]@.subrange(0, k as int),
            decreases parts@[j as int]@.len() - k,
        {
            out.push(parts[j][k]);
            k = k + 1;
            assert(out@ =~= o1 + parts@[j as int]@.subrange(0, k as int));
        }
        assert(parts@[j as int]@.subrange(0, k as int) =~= p[j as int]);
        let ghost q = p.subrange(start as int, j + 1);
        assert(q.drop_last() =~= p.subrange(start as int, j as int));
        assert(q.last() == p[j as int]);
        if j == start {
            assert(out@ =~= joined(q));
        } else {
            assert(out@ =~= joined(q));
        }
        j = j + 1;
    }
    assert(p.subrange(start as int, len as int) == p.subrange(start as int, j as int));
    string_of(&out)
}

/// The lines that `grep` keeps: those the pattern matches, or with `invert`
/// those it does not; `None` when the pattern does not compile.
pub open spec fn kept(lines: Seq<Seq<char>>, pattern: Seq<char>, invert: bool) -> Option<Seq<Seq<char>>>
    decreases lines.len(),
{
    if lines.len() == 0 {
        Some(seq![])
    } else {
        match kept(lines.drop_last(), pattern, invert) {
            None => None,
            Some(k) => match regex_verdict(pattern, lines.last()) {
                None => None,
                Some(m) => Some(if m != invert { k.push(lines.last()) } else { k }),
            },
        }
    }
}

proof fn lemma_kept_stays_none(lines: Seq<Seq<char>>, pattern: Seq<char>, invert: bool, i: int)
    requires
        0 <= i <= lines.len(),
        kept(lines.subrange(0, i), pattern, invert) is None,
    ensures
        kept(lines, pattern, invert) is None,
    decreases lines.len() - i,
{
    if i < lines.len() {
        let q = lines.subrange(0, i + 1);
        assert(q.drop_last() =~= lines.subrange(0, i));
        lemma_kept_stays_none(lines, pattern, invert, i + 1);
    } else {
        assert(lines.subrange(0, i) =~= lines);
    }
}

/// The pattern `grep` searches with: `(?i)` in front makes it ignore case.
pub open spec fn grep_pattern(pattern: Seq<char>, ignore_case: bool) -> Seq<char> {
    if ignore_case {
        seq!['(', '?', 'i', ')'] + pattern
    } else {
        pattern
    }
}

/// The lines that `grep` prints.
pub fn grep_lines(pattern: &str, lines: &Vec<String>, invert: bool, ignore_case: bool) -> (r: Result<
    Vec<String>,
    TestError,
>)
    ensures
        match kept(words(lines@), grep_pattern(pattern@, ignore_case), invert) {
            Some(k) => r is Ok && words(r->Ok_0@) == k,
            None => r == Err::<Vec<String>, TestError>(TestError::BadPattern),
        },
{
    proof {
        reveal_strlit("(?i)");
        assert("(?i)"@ =~= seq!['(', '?', 'i', ')']);
    }
    let pat = if ignore_case { owned("(?i)").concat(pattern) } else { owned(pattern) };
    let ghost ws = words(lines@);
    let mut out: Vec<String> = Vec::new();
    let mut i: usize = 0;
    assert(ws.subrange(0, 0) =~= Seq::<Seq<char>>::empty());
    assert(words(out@) =~= Seq::<Seq<char>>::empty());
    while i < lines.len()
        invariant
            i <= lines@.len(),
            ws == words(lines@),
            pat@ == grep_pattern(pattern@, ignore_case),
            kept(ws.subrange(0, i as int), pat@, invert) == Some(words(out@)),
        decreases lines@.len() - i,
    {
        let ghost q = ws.subrange(0, i + 1);
        assert(q.drop_last() =~= ws.subrange(0, i as int));
        assert(q.last() == lines@[i as int]@);
        match regex_is_match(pat.as_str(), lines[i].as_str()) {
            None => {
                proof {
                    lemma_kept_stays_none(ws, pat@, invert, i + 1);
                }
                return Err(TestError::BadPattern);
            },
            Some(m) => {
                if m != invert {
                    let ghost o0 = out@;
                    let x = lines[i].clone();
                    out.push(x);
                    assert(words(out@) =~= words(o0).push(x@));
                }
            },
        }
        i = i + 1;
    }
    assert(ws.subrange(0, i as int) =~= ws);
    Ok(out)
}

/// The number of bytes of a character in UTF-8.
pub open spec fn utf8_len(c: char) -> nat {
    if (c as u32) < 0x80 {
        1
    } else if (c as u32) < 0x800 {
        2
    } else if (c as u32) < 0x10000 {
        3
    } else {
        4
    }
}

/// The number of bytes of a text in UTF-8.
pub open spec fn byte_len(s: Seq<char>) -> nat
    decreases s.len(),
{
    if s.len() == 0 {
        0
    } else {
        byte_len(s.drop_last()) + utf8_len(s.last())
    }
}

/// The number of words of a text: runs of characters that are not white space.
pub open spec fn word_count(s: Seq<char>) -> nat
    decreases s.len(),
{
    if s.len() == 0 {
        0
    } else {
        let p = s.drop_last();
        word_count(p) + if !is_space(s.last()) && (p.len() == 0 || is_space(p.last())) {
            1nat
        } else {
            0nat
        }
    }
}

/// Line, word and byte counts of lines, each at most `u64::MAX`.
pub struct Counts {
    pub lines: u64,
    pub words: u64,
    pub bytes: u64,
}

/// A count that stops at `u64::MAX`.
pub open spec fn capped(n: nat) -> u64 {
    if n <= u64::MAX {
        n as u64
    } else {
        u64::MAX
    }
}

/// The sum of `f` over the lines.
pub open spec fn total(lines: Seq<Seq<char>>, f: spec_fn(Seq<char>) -> nat) -> nat
    decreases lines.len(),
{
    if lines.len() == 0 {
        0
    } else {
        total(lines.drop_last(), f) + f(lines.last())
    }
}

fn add_capped(a: u64, b: u64) -> (r: u64)
    ensures
        r == capped((a + b) as nat),
{
    if a > u64::MAX - b {
        u64::MAX
    } else {
        a + b
    }
}

fn line_counts(line: &str) -> (r: (u64, u64))
    ensures
        r.0 == capped(word_count(line@)),
        r.1 == capped(byte_len(line@)),
{
    let cs = chars_of(line);
    let mut words: u64 = 0;
    let mut bytes: u64 = 0;
    let mut i: usize = 0;
    while i < cs.len()
        invariant
            i <= cs@.len(),
            cs@ == line@,
            words == capped(word_count(cs@.subrange(0, i as int))),
            bytes == capped(byte_len(cs@.subrange(0, i as int))),
        decreases cs@.len() - i,
    {
        let c = cs[i];
        let ghost p = cs@.subrange(0, i as int);
        let ghost q = cs@.subrange(0, i + 1);
        assert(q.drop_last() =~= p);
        let starts = !is_white_space(c) && (i == 0 || is_white_space(cs[i - 1]));
        if starts {
            words = add_capped(words, 1);
        }
        let n: u64 = if (c as u32) < 0x80 {
            1
        } else if (c as u32) < 0x800 {
            2
        } else if (c as u32) < 0x10000 {
            3
        } else {
            4
        };
        bytes = add_capped(bytes, n);
        i = i + 1;
    }
    assert(cs@.subrange(0, i as int) =~= line@);
    (words, bytes)
}

/// What `wc` counts of the lines it reads: the lines, the words of all
/// lines, and their bytes without the line feeds.
pub fn count_lines(lines: &Vec<String>) -> (r: Counts)
    ensures
        r.lines == capped(lines@.len()),
        r.words == capped(total(words(lines@), |s: Seq<char>| word_count(s))),
        r.bytes == capped(total(words(lines@), |s: Seq<char>| byte_len(s))),
{
    let ghost ws = words(lines@);
    let mut c = Counts { lines: 0, words: 0, bytes: 0 };
    let mut i: usize = 0;
    while i < lines.len()
        invariant
            i <= lines@.len(),
            ws == words(lines@),
            c.lines == capped(i as nat),
            c.words == capped(total(ws.subrange(0, i as int), |s: Seq<char>| word_count(s))),
            c.bytes == capped(total(ws.subrange(0, i as int), |s: Seq<char>| byte_len(s))),
        decreases lines@.len() - i,
    {
        let ghost q = ws.subrange(0, i + 1);
        assert(q.drop_last() =~= ws.subrange(0, i as int));
        assert(q.last() == lines@[i as int]@);
        let (w, b) = line_counts(lines[i].as_str());
        c.lines = add_capped(c.lines, 1);
        c.words = add_capped(c.words, w);
        c.bytes = add_capped(c.bytes, b);
        i = i + 1;
    }
    assert(ws.subrange(0, i as int) =~= ws);
    c
}

/// What the sed command `command` (`s/PATTERN/REPLACEMENT/FLAGS`) makes of
/// `line`; `None` when the command does not parse or its pattern does not
/// compile.
pub uninterp spec fn sed_output(command: Seq<char>, line: Seq<char>) -> Option<Seq<char>>;

/// Relies on `sedregex::ReplaceCommand::new`, which fails on a command that
/// does not parse or whose pattern does not compile, and
/// `ReplaceCommand::execute`, which applies the substitution to the text.
/// The outcome depends on the two strings alone.
#[verifier::external_body]
fn sed_line(command: &str, line: &str) -> (r: Option<String>)
    ensures
        match r {
            Some(t) => sed_output(command@, line@) == Some(t@),
            None => sed_output(command@, line@) is None,
        },
{
    match sedregex::ReplaceCommand::new(command) {
        Ok(c) => Some(c.execute(line).into_owned()),
        Err(_) => None,
    }
}

/// The lines after the sed command, each on its own; `None` when the
/// command fails on one of them.
pub open spec fn sed_all(command: Seq<char>, lines: Seq<Seq<char>>) -> Option<Seq<Seq<char>>>
    decreases lines.len(),
{
    if lines.len() == 0 {
        Some(seq![])
    } else {
        match (sed_all(command, lines.drop_last()), sed_output(command, lines.last())) {
            (Some(done), Some(t)) => Some(done.push(t)),
            _ => None,
        }
    }
}

proof fn lemma_sed_stays_none(command: Seq<char>, lines: Seq<Seq<char>>, i: int)
    requires
        0 <= i <= lines.len(),
        sed_all(command, lines.subrange(0, i)) is None,
    ensures
        sed_all(command, lines) is None,
    decreases lines.len() - i,
{
    if i < lines.len() {
        let q = lines.subrange(0, i + 1);
        assert(q.drop_last() =~= lines.subrange(0, i));
        lemma_sed_stays_none(command, lines, i + 1);
    } else {
        assert(lines.subrange(0, i) =~= lines);
    }
}

/// The lines that `sed` prints.
pub fn sed_lines(command: &str, lines: &Vec<String>) -> (r: Option<Vec<String>>)
    ensures
        match sed_all(command@, words(lines@)) {
            Some(t) => r is Some && words(r->0@) == t,
            None => r is None,
        },
{
    let ghost ws = words(lines@);
    let mut out: Vec<String> = Vec::new();
    let mut i: usize = 0;
    assert(ws.subrange(0, 0) =~= Seq::<Seq<char>>::empty());
    assert(words(out@) =~= Seq::<Seq<char>>::empty());
    while i < lines.len()
        invariant
            i <= lines@.len(),
            ws == words(lines@),
            sed_all(command@, ws.subrange(0, i as int)) == Some(words(out@)),
        decreases lines@.len() - i,
    {
        let ghost q = ws.subrange(0, i + 1);
        assert(q.drop_last() =~= ws.subrange(0, i as int));
        assert(q.last() == lines@[i as int]@);
        match sed_line(command, lines[i].as_str()) {
            None => {
                proof {
                    lemma_sed_stays_none(command@, ws, i + 1);
                }
                return None;
            },
            Some(t) => {
                let ghost o0 = out@;
                out.push(t);
                assert(words(out@) =~= words(o0).push(t@));
            },
        }
        i = i + 1;
    }
    assert(ws.subrange(0, i as int) =~= ws);
    Some(out)
}

/// How `find` shows a path below the directory `dir` that the user wrote as
/// `written`: the directory's part of the path (with its slash) is replaced by
/// the written form, given a trailing slash.
pub open spec fn shown_below(path: Seq<char>, dir: Seq<char>, written: Seq<char>) -> Seq<char> {
    let prefix = dir.push('/');
    let form = if written.len() > 0 && written.last() == '/' { written } else { written.push('/') };
    if prefix.len() <= path.len() && path.subrange(0, prefix.len() as int) == prefix {
        form + path.subrange(prefix.len() as int, path.len() as int)
    } else {
        path
    }
}

/// The line `find` prints for `path`, found below `dir`, written as `written`.
pub fn find_display(path: &str, dir: &str, written: &str) -> (r: String)
    ensures
        r@ == shown_below(path@, dir@, written@),
{
    let p = chars_of(path);
    let mut prefix = chars_of(dir);
    prefix.push('/');
    let mut form = chars_of(written);
    if !(form.len() > 0 && form[form.len() - 1] == '/') {
        form.push('/');
    }
    if prefix.len() > p.len() {
        return string_of(&p);
    }
    let mut i: usize = 0;
    while i < prefix.len()
        invariant
            i <= prefix@.len(),
            prefix@.len() <= p@.len(),
            p@ == path@,
            prefix@ == dir@.push('/'),
            p@.subrange(0, i as int) == prefix@.subrange(0, i as int),
        decreases prefix@.len() - i,
    {
        if p[i] != prefix[i] {
            assert(p@.subrange(0, prefix@.len() as int)[i as int] != prefix@[i as int]);
            return string_of(&p);
        }
        assert(p@.subrange(0, i + 1) =~= p@.subrange(0, i as int).push(p@[i as int]));
        assert(prefix@.subrange(0, i + 1) =~= prefix@.subrange(0, i as int).push(prefix@[i as int]));
        i = i + 1;
    }
    assert(prefix@.subrange(0, i as int) =~= prefix@);
    let ghost f0 = form@;
    let mut j = i;
    while j < p.len()
        invariant
            i <= j <= p@.len(),
            form@ == f0 + p@.subrange(i as int, j as int),
        decreases p@.len() - j,
    {
        form.push(p[j]);
        j = j + 1;
        assert(form@ =~= f0 + p@.subrange(i as int, j as int));
    }
    string_of(&form)
}

} // verus!
