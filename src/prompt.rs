//! The interactive prompt, expanded from `PS1`.
use crate::text::{chars_of, string_of};
use vstd::prelude::*;

verus! {

/// A path as the shell shows it: the root, whose path is empty, as `/`.
pub open spec fn shown_path(p: Seq<char>) -> Seq<char> {
    if p.len() == 0 {
        seq!['/']
    } else {
        p
    }
}

/// A path as the shell shows it, `/` for the root.
pub fn display_path(p: &str) -> (r: String)
    ensures
        r@ == shown_path(p@),
{
    let cs = chars_of(p);
    if cs.len() == 0 {
        let root = vec!['/'];
        assert(root@ =~= seq!['/']);
        string_of(&root)
    } else {
        string_of(&cs)
    }
}

/// What `\c` in `PS1` stands for: `\w` the working directory, `\W` its last
/// component (`/` at the root), `\\` a backslash, `\n` a line feed, `\r` a
/// carriage return, `\e` escape; anything else nothing.
pub open spec fn prompt_escape(c: char, cwd: Seq<char>, folder: Seq<char>) -> Seq<char> {
    if c == 'w' {
        shown_path(cwd)
    } else if c == 'W' {
        if cwd.len() == 0 {
            seq!['/']
        } else {
            folder
        }
    } else if c == '\\' {
        seq!['\\']
    } else if c == 'n' {
        seq!['\n']
    } else if c == 'r' {
        seq!['\r']
    } else if c == 'e' {
        seq!['\u{1b}']
    } else {
        seq![]
    }
}

/// The prompt for `ps1`: other characters stand for themselves, and a
/// backslash at the end for nothing.
pub open spec fn prompt_spec(ps1: Seq<char>, cwd: Seq<char>, folder: Seq<char>) -> Seq<char>
    decreases ps1.len(),
{
    if ps1.len() == 0 {
        seq![]
    } else if ps1[0] == '\\' {
        if ps1.len() == 1 {
            seq![]
        } else {
            prompt_escape(ps1[1], cwd, folder) + prompt_spec(ps1.subrange(2, ps1.len() as int), cwd, folder)
        }
    } else {
        seq![ps1[0]] + prompt_spec(ps1.drop_first(), cwd, folder)
    }
}

fn append(out: &mut Vec<char>, s: &Vec<char>)
    ensures
        final(out)@ == old(out)@ + s@,
{
    let ghost o0 = out@;
    let mut i: usize = 0;
    while i < s.len()
        invariant
            i <= s@.len(),
            out@ == o0 + s@.subrange(0, i as int),
        decreases s@.len() - i,
    {
        out.push(s[i]);
        i = i + 1;
        assert(out@ =~= o0 + s@.subrange(0, i as int));
    }
    assert(s@.subrange(0, i as int) =~= s@);
}

/// The prompt that `ps1` gives in the working directory `cwd` (a vfs path,
/// empty for the root), whose last component is `folder`.
pub fn expand_prompt(ps1: &str, cwd: &str, folder: &str) -> (r: String)
    ensures
        r@ == prompt_spec(ps1@, cwd@, folder@),
{
    let p = chars_of(ps1);
    let cwd_chars = chars_of(cwd);
    let shown = if cwd_chars.len() == 0 { vec!['/'] } else { chars_of(cwd) };
    let name = if cwd_chars.len() == 0 { vec!['/'] } else { chars_of(folder) };
    assert(shown@ =~= shown_path(cwd@));
    assert(name@ =~= prompt_escape('W', cwd@, folder@));
    let mut out: Vec<char> = Vec::new();
    let mut i: usize = 0;
    assert(p@.subrange(0, p@.len() as int) =~= p@);
    while i < p.len()
        invariant
            i <= p@.len(),
            p@ == ps1@,
            shown@ == shown_path(cwd@),
            name@ == prompt_escape('W', cwd@, folder@),
            prompt_spec(ps1@, cwd@, folder@) == out@ + prompt_spec(p@.subrange(i as int, p@.len() as int), cwd@, folder@),
        decreases p@.len() - i,
    {
        let ghost t = p@.subrange(i as int, p@.len() as int);
        let ghost o0 = out@;
        let c = p[i];
        assert(t[0] == c);
        if c == '\\' {
            if i + 1 == p.len() {
                i = i + 1;
                assert(p@.subrange(i as int, p@.len() as int) =~= Seq::<char>::empty());
                assert(out@ =~= out@ + Seq::<char>::empty());
            } else {
                let e = p[i + 1];
                assert(t[1] == e);
                assert(t.subrange(2, t.len() as int) =~= p@.subrange(i + 2, p@.len() as int));
                if e == 'w' {
                    append(&mut out, &shown);
                } else if e == 'W' {
                    append(&mut out, &name);
                } else if e == '\\' || e == 'n' || e == 'r' || e == 'e' {
                    let ch = if e == '\\' {
                        '\\'
                    } else if e == 'n' {
                        '\n'
                    } else if e == 'r' {
                        '\r'
                    } else {
                        '\u{1b}'
                    };
                    out.push(ch);
                    assert(out@ =~= o0 + prompt_escape(e, cwd@, folder@));
                } else {
                    assert(out@ =~= o0 + prompt_escape(e, cwd@, folder@));
                }
                i = i + 2;
            }
        } else {
            out.push(c);
            i = i + 1;
            assert(t.drop_first() =~= p@.subrange(i as int, p@.len() as int));
            assert(out@ =~= o0 + seq![c]);
        }
    }
    assert(p@.subrange(i as int, p@.len() as int) =~= Seq::<char>::empty());
    assert(out@ =~= out@ + Seq::<char>::empty());
    string_of(&out)
}

} // verus!
