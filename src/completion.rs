//! Tab completion in the shell: whether the word being typed names a
//! command or a path, and the suggestions offered for it.
use crate::lexer::{is_space, is_white_space};
use crate::text::{chars_of, string_of};
use vstd::prelude::*;

verus! {

/// The words of a text, as `str::split_whitespace` gives them.
pub open spec fn ws_words(s: Seq<char>) -> Seq<Seq<char>>
    decreases s.len(),
{
    if s.len() == 0 {
        seq![]
    } else {
        let p = ws_words(s.drop_last());
        let c = s.last();
        if is_space(c) {
            p
        } else if s.len() > 1 && !is_space(s[s.len() - 2]) && p.len() > 0 {
            p.update(p.len() - 1, p.last().push(c))
        } else {
            p.push(seq![c])
        }
    }
}

/// A word after which a command starts.
pub open spec fn is_separator(w: Seq<char>) -> bool {
    w == seq!['|'] || w == seq!['&', '&'] || w == seq!['|', '|'] || w == seq![';']
}

/// The word being typed at the end of `section` is in command position:
/// it is the first word, or follows a pipe, `&&`, `||` or `;`.
pub open spec fn command_position_spec(section: Seq<char>) -> bool {
    let ws = ws_words(section);
    (ws.len() == 0 || !(section.len() > 0 && section.last() == ' ')) && (ws.len() < 2 || is_separator(
        ws[ws.len() - 2],
    ))
}

fn separator(w: &Vec<char>) -> (r: bool)
    ensures
        r == is_separator(w@),
{
    let n = w.len();
    let r = (n == 1 && (w[0] == '|' || w[0] == ';')) || (n == 2 && ((w[0] == '&' && w[1] == '&') || (
    w[0] == '|' && w[1] == '|')));
    proof {
        if n == 1 {
            assert(w@ == seq![w@[0]]);
        }
        if n == 2 {
            assert(w@ == seq![w@[0], w@[1]]);
        }
    }
    r
}

/// Whether the word being typed at the end of `section` names a command.
pub fn command_position(section: &str) -> (r: bool)
    ensures
        r == command_position_spec(section@),
{
    let s = chars_of(section);
    let mut ws: Vec<Vec<char>> = Vec::new();
    let mut i: usize = 0;
    while i < s.len()
        invariant
            i <= s@.len(),
            s@ == section@,
            ws@.map_values(|w: Vec<char>| w@) == ws_words(s@.subrange(0, i as int)),
        decreases s@.len() - i,
    {
        let c = s[i];
        let ghost p = ws@.map_values(|w: Vec<char>| w@);
        let ghost q = s@.subrange(0, i + 1);
        assert(q.drop_last() =~= s@.subrange(0, i as int));
        assert(q.last() == c);
        if !is_white_space(c) {
            if i > 0 && !is_white_space(s[i - 1]) && ws.len() > 0 {
                assert(q[q.len() - 2] == s@[i - 1]);
                let mut last = ws.pop().unwrap();
                last.push(c);
                ws.push(last);
                assert(ws@.map_values(|w: Vec<char>| w@) =~= p.update(p.len() - 1, p.last().push(c)));
            } else {
                proof {
                    if i > 0 {
                        assert(q[q.len() - 2] == s@[i - 1]);
                    }
                }
                let one = vec![c];
                assert(one@ =~= seq![c]);
                ws.push(one);
                assert(ws@.map_values(|w: Vec<char>| w@) =~= p.push(seq![c]));
            }
        }
        i = i + 1;
    }
    assert(s@.subrange(0, i as int) =~= section@);
    let n = ws.len();
    let ends_space = s.len() > 0 && s[s.len() - 1] == ' ';
    (n == 0 || !ends_space) && (n < 2 || separator(&ws[n - 2]))
}

/// The position of the last `/` in `w`.
pub open spec fn last_slash(w: Seq<char>) -> Option<int>
    decreases w.len(),
{
    if w.len() == 0 {
        None
    } else if w.last() == '/' {
        Some(w.len() - 1)
    } else {
        last_slash(w.drop_last())
    }
}

/// A word is completed as a path even in command position when it starts
/// like one: `/`, `./`, `../` or `~/`.
pub open spec fn looks_like_path(w: Seq<char>) -> bool {
    (w.len() >= 1 && w[0] == '/') || (w.len() >= 2 && w[0] == '.' && w[1] == '/') || (w.len() >= 3 && w[0]
        == '.' && w[1] == '.' && w[2] == '/') || (w.len() >= 2 && w[0] == '~' && w[1] == '/')
}

/// Whether `word` starts like a path.
pub fn starts_like_path(word: &str) -> (r: bool)
    ensures
        r == looks_like_path(word@),
{
    let w = chars_of(word);
    let n = w.len();
    (n >= 1 && w[0] == '/') || (n >= 2 && w[0] == '.' && w[1] == '/') || (n >= 3 && w[0] == '.' && w[1] == '.'
        && w[2] == '/') || (n >= 2 && w[0] == '~' && w[1] == '/')
}

/// The directory part of a word being completed as a path (`/` for a word
/// right below the root, empty for none) and the start of the name in it.
pub open spec fn split_path_spec(w: Seq<char>) -> (Seq<char>, Seq<char>) {
    match last_slash(w) {
        Some(k) => (if k == 0 { seq!['/'] } else { w.subrange(0, k) }, w.subrange(k + 1, w.len() as int)),
        None => (seq![], w),
    }
}

proof fn lemma_last_slash(w: Seq<char>, i: int)
    requires
        0 <= i <= w.len(),
        forall|j: int| i <= j < w.len() ==> w[j] != '/',
    ensures
        last_slash(w) == last_slash(w.subrange(0, i)),
    decreases w.len() - i,
{
    if i < w.len() {
        let t = w.drop_last();
        assert(t.subrange(0, i) =~= w.subrange(0, i));
        assert forall|j: int| i <= j < t.len() implies t[j] != '/' by {
            assert(t[j] == w[j]);
        }
        lemma_last_slash(t, i);
    } else {
        assert(w.subrange(0, i) =~= w);
    }
}

fn slice(w: &Vec<char>, from: usize, to: usize) -> (r: Vec<char>)
    requires
        from <= to <= w@.len(),
    ensures
        r@ == w@.subrange(from as int, to as int),
{
    let mut r: Vec<char> = Vec::new();
    let mut i = from;
    while i < to
        invariant
            from <= i <= to,
            to <= w@.len(),
            r@ == w@.subrange(from as int, i as int),
        decreases to - i,
    {
        r.push(w[i]);
        i = i + 1;
        assert(r@ =~= w@.subrange(from as int, i as int));
    }
    r
}

/// Split a word being completed as a path into its directory and the start
/// of the name.
pub fn split_path(word: &str) -> (r: (String, String))
    ensures
        r.0@ == split_path_spec(word@).0,
        r.1@ == split_path_spec(word@).1,
{
    let w = chars_of(word);
    let mut i = w.len();
    while i > 0 && w[i - 1] != '/'
        invariant
            i <= w@.len(),
            w@ == word@,
            forall|j: int| i <= j < w@.len() ==> w@[j] != '/',
        decreases i,
    {
        i = i - 1;
    }
    proof {
        lemma_last_slash(w@, i as int);
    }
    if i == 0 {
        assert(w@.subrange(0, 0).len() == 0);
        return (String::new(), string_of(&w));
    }
    let k = i - 1;
    assert(w@.subrange(0, i as int).last() == '/');
    let dir = if k == 0 { vec!['/'] } else { slice(&w, 0, k) };
    proof {
        if k == 0 {
            assert(dir@ =~= seq!['/']);
        }
    }
    let name = slice(&w, k + 1, w.len());
    (string_of(&dir), string_of(&name))
}

/// A suggestion for the entry `name` of the directory written `dir`: the
/// path as it will be typed, then a space after a file or a slash after a
/// directory.
pub open spec fn suggestion_spec(dir: Seq<char>, name: Seq<char>, is_file: bool) -> Seq<char> {
    let path = if dir.len() == 0 {
        name
    } else if dir == seq!['/'] {
        seq!['/'] + name
    } else {
        dir + seq!['/'] + name
    };
    path.push(if is_file { ' ' } else { '/' })
}

/// The suggestion for the entry `name` of the directory written `dir`.
pub fn suggestion(dir: &str, name: &str, is_file: bool) -> (r: String)
    ensures
        r@ == suggestion_spec(dir@, name@, is_file),
{
    let d = chars_of(dir);
    let n = chars_of(name);
    let mut out: Vec<char> = Vec::new();
    if d.len() == 1 && d[0] == '/' {
        out.push('/');
        assert(d@ =~= seq!['/']);
    } else if d.len() > 0 {
        out = d.clone();
        out.push('/');
        proof {
            assert(d@ != seq!['/']) by {
                if d@.len() == 1 {
                    assert(d@[0] != '/');
                }
            }
        }
    }
    let ghost o0 = out@;
    let mut i: usize = 0;
    while i < n.len()
        invariant
            i <= n@.len(),
            out@ == o0 + n@.subrange(0, i as int),
        decreases n@.len() - i,
    {
        out.push(n[i]);
        i = i + 1;
        assert(out@ =~= o0 + n@.subrange(0, i as int));
    }
    assert(n@.subrange(0, i as int) =~= n@);
    out.push(if is_file { ' ' } else { '/' });
    proof {
        if d@.len() == 0 {
            assert(o0 =~= Seq::<char>::empty());
        }
        assert(out@ =~= suggestion_spec(dir@, name@, is_file));
    }
    string_of(&out)
}

} // verus!
