//! `fortune`: the list of fortunes, and which drawn fortune is told.
use crate::cowsay::{trim_text, trimmed_text};
use crate::filters::byte_len;
use crate::text::{chars_of, string_of};
use crate::tokens::words;
use vstd::prelude::*;

verus! {

/// A text cut at each blank line (`"\n\n"`), left to right, as
/// `str::split("\n\n")` cuts it.
pub open spec fn split_blank(s: Seq<char>) -> Seq<Seq<char>>
    decreases s.len(),
{
    if s.len() < 2 {
        seq![s]
    } else if s[0] == '\n' && s[1] == '\n' {
        seq![Seq::<char>::empty()] + split_blank(s.subrange(2, s.len() as int))
    } else {
        let rest = split_blank(s.drop_first());
        rest.update(0, seq![s[0]] + rest[0])
    }
}

proof fn lemma_split_nonempty(s: Seq<char>)
    ensures
        split_blank(s).len() >= 1,
    decreases s.len(),
{
    if s.len() >= 2 {
        if s[0] == '\n' && s[1] == '\n' {
            lemma_split_nonempty(s.subrange(2, s.len() as int));
        } else {
            lemma_split_nonempty(s.drop_first());
        }
    }
}

/// `cur` put in front of the first piece.
pub open spec fn prefixed(cur: Seq<char>, p: Seq<Seq<char>>) -> Seq<Seq<char>> {
    p.update(0, cur + p[0])
}

/// The fortunes of a fortune file: its trimmed text cut at blank lines.
pub fn fortune_list(text: &str) -> (r: Vec<String>)
    ensures
        words(r@) == split_blank(trimmed_text(text@)),
{
    let cs = trim_text(text);
    let ghost all = cs@;
    let n = cs.len();
    let mut done: Vec<String> = Vec::new();
    let mut cur: Vec<char> = Vec::new();
    let mut i: usize = 0;
    proof {
        lemma_split_nonempty(all);
        assert(prefixed(Seq::<char>::empty(), split_blank(all)) =~= split_blank(all)) by {
            assert(Seq::<char>::empty() + split_blank(all)[0] =~= split_blank(all)[0]);
        }
        assert(all.subrange(0, n as int) =~= all);
    }
    while i < n
        invariant
            i <= n,
            n == cs@.len(),
            all == cs@,
            split_blank(all) == words(done@) + prefixed(cur@, split_blank(all.subrange(i as int, n as int))),
        decreases n - i,
    {
        let ghost rest = all.subrange(i as int, n as int);
        proof {
            lemma_split_nonempty(rest);
        }
        if cs[i] == '\n' && i + 1 < n && cs[i + 1] == '\n' {
            let ghost after = all.subrange(i + 2, n as int);
            assert(rest.subrange(2, rest.len() as int) =~= after);
            proof {
                lemma_split_nonempty(after);
            }
            let ghost d0 = words(done@);
            let piece = string_of(&cur);
            done.push(piece);
            cur = Vec::new();
            assert(words(done@) =~= d0.push(piece@));
            assert(d0 + prefixed(piece@, split_blank(rest)) =~= words(done@) + prefixed(cur@, split_blank(after)));
            i = i + 2;
        } else {
            let c = cs[i];
            let ghost after = all.subrange(i + 1, n as int);
            assert(rest.drop_first() =~= after);
            assert(rest[0] == c);
            proof {
                lemma_split_nonempty(after);
            }
            let ghost c0 = cur@;
            cur.push(c);
            proof {
                if rest.len() < 2 {
                    assert(after =~= Seq::<char>::empty());
                    assert(split_blank(rest) =~= seq![rest]);
                    assert(rest =~= seq![c]);
                    assert(split_blank(after) =~= seq![Seq::<char>::empty()]);
                    assert(cur@ =~= c0 + seq![c]);
                    assert(prefixed(c0, split_blank(rest)) =~= prefixed(cur@, split_blank(after)));
                } else {
                    assert(rest[1] == cs@[i + 1]);
                    assert(!(rest[0] == '\n' && rest[1] == '\n'));
                    assert(split_blank(rest) == split_blank(after).update(0, seq![c] + split_blank(after)[0]));
                    assert(c0 + (seq![c] + split_blank(after)[0]) =~= cur@ + split_blank(after)[0]);
                    assert(prefixed(c0, split_blank(rest)) =~= prefixed(cur@, split_blank(after)));
                }
            }
            i = i + 1;
        }
    }
    let ghost d0 = words(done@);
    let piece = string_of(&cur);
    done.push(piece);
    proof {
        assert(all.subrange(i as int, n as int) =~= Seq::<char>::empty());
        assert(split_blank(Seq::<char>::empty()) =~= seq![Seq::<char>::empty()]);
        assert(words(done@) =~= d0.push(piece@));
        assert(prefixed(cur@, seq![Seq::<char>::empty()]) =~= seq![cur@]);
        assert(words(done@) =~= d0 + seq![cur@]);
    }
    done
}

/// `part` occurs in `s`.
pub open spec fn occurs_in(part: Seq<char>, s: Seq<char>) -> bool {
    exists|i: int| 0 <= i <= s.len() - part.len() && #[trigger] s.subrange(i, i + part.len()) == part
}

fn occurs_at(part: &Vec<char>, s: &Vec<char>, i: usize) -> (r: bool)
    requires
        i + part@.len() <= s@.len(),
    ensures
        r == (s@.subrange(i as int, i + part@.len()) == part@),
{
    let sl = s.len();
    let mut k: usize = 0;
    while k < part.len()
        invariant
            k <= part@.len(),
            sl == s@.len(),
            i + part@.len() <= s@.len(),
            s@.subrange(i as int, i + k) == part@.subrange(0, k as int),
        decreases part@.len() - k,
    {
        if s[i + k] != part[k] {
            assert(s@.subrange(i as int, i + part@.len())[k as int] != part@[k as int]);
            return false;
        }
        assert(s@.subrange(i as int, i + k + 1) =~= s@.subrange(i as int, i + k).push(s@[i + k]));
        assert(part@.subrange(0, k + 1) =~= part@.subrange(0, k as int).push(part@[k as int]));
        k = k + 1;
    }
    assert(part@.subrange(0, k as int) =~= part@);
    true
}

/// Whether `part` occurs in `s`.
pub fn contains_text(s: &str, part: &str) -> (r: bool)
    ensures
        r == occurs_in(part@, s@),
{
    let sv = chars_of(s);
    let pv = chars_of(part);
    if pv.len() > sv.len() {
        return false;
    }
    let last = sv.len() - pv.len();
    let mut i: usize = 0;
    loop
        invariant
            pv@.len() <= sv@.len(),
            last == sv@.len() - pv@.len(),
            sv@ == s@,
            pv@ == part@,
            i <= last,
            forall|j: int| 0 <= j < i ==> #[trigger] s@.subrange(j, j + part@.len()) != part@,
        decreases last - i,
    {
        if occurs_at(&pv, &sv, i) {
            return true;
        }
        if i == last {
            return false;
        }
        i = i + 1;
    }
}

/// Whether a drawn fortune is told: after fewer than five draws one already
/// told is drawn again, and with `short` one of 80 bytes or more is.
pub open spec fn fits(fortune: Seq<char>, told: Seq<char>, draws: usize, short: bool) -> bool {
    !((draws < 5 && occurs_in(fortune, told)) || (short && byte_len(fortune) >= 80))
}

/// Whether the drawn `fortune` is told, `draws` draws having been refused
/// before it, given the fortunes `told` already.
pub fn fortune_fits(fortune: &str, told: &str, draws: usize, short: bool) -> (r: bool)
    ensures
        r == fits(fortune@, told@, draws, short),
{
    if draws < 5 && contains_text(told, fortune) {
        return false;
    }
    if short {
        let cs = chars_of(fortune);
        let mut n: usize = 0;
        let mut i: usize = 0;
        while i < cs.len()
            invariant
                i <= cs@.len(),
                cs@ == fortune@,
                short,
                n < 80,
                n as nat == byte_len(cs@.subrange(0, i as int)),
            decreases cs@.len() - i,
        {
            let c = cs[i];
            let b: usize = if (c as u32) < 0x80 {
                1
            } else if (c as u32) < 0x800 {
                2
            } else if (c as u32) < 0x10000 {
                3
            } else {
                4
            };
            let ghost q = cs@.subrange(0, i + 1);
            assert(q.drop_last() =~= cs@.subrange(0, i as int));
            assert(q.last() == c);
            n = n + b;
            assert(n as nat == byte_len(q));
            i = i + 1;
            if n >= 80 {
                proof {
                    lemma_prefix_bytes(cs@, i as int);
                    assert(byte_len(fortune@) >= 80);
                    assert(!fits(fortune@, told@, draws, short));
                }
                return false;
            }
        }
        assert(cs@.subrange(0, i as int) =~= fortune@);
    }
    true
}

proof fn lemma_prefix_bytes(s: Seq<char>, k: int)
    requires
        0 <= k <= s.len(),
    ensures
        byte_len(s.subrange(0, k)) <= byte_len(s),
    decreases s.len() - k,
{
    if k < s.len() {
        lemma_prefix_bytes(s, k + 1);
        assert(s.subrange(0, k + 1).drop_last() =~= s.subrange(0, k));
    } else {
        assert(s.subrange(0, k) =~= s);
    }
}

} // verus!
