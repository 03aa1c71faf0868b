//! `sort`: lines in the order of their characters' codes, which is the byte
//! order of their UTF-8 text.
use crate::text::same_text;
use crate::tokens::words;
use vstd::prelude::*;
use vstd::string::*;

verus! {

/// `a` comes before `b`: at the first character where they differ, `a`'s
/// is the lower, or `a` is a proper prefix of `b`.
pub open spec fn text_lt(a: Seq<char>, b: Seq<char>) -> bool
    decreases a.len(),
{
    if a.len() == 0 {
        b.len() > 0
    } else if b.len() == 0 {
        false
    } else if a[0] != b[0] {
        a[0] < b[0]
    } else {
        text_lt(a.drop_first(), b.drop_first())
    }
}

/// Each line is no earlier than the one before it.
pub open spec fn ascending(s: Seq<Seq<char>>) -> bool {
    forall|i: int, j: int| 0 <= i < j < s.len() ==> !text_lt(#[trigger] s[j], #[trigger] s[i])
}

/// Each line is later than the one before it.
pub open spec fn strictly_ascending(s: Seq<Seq<char>>) -> bool {
    forall|i: int, j: int| 0 <= i < j < s.len() ==> text_lt(#[trigger] s[i], #[trigger] s[j])
}

/// Each line is earlier than the one before it.
pub open spec fn strictly_descending(s: Seq<Seq<char>>) -> bool {
    forall|i: int, j: int| 0 <= i < j < s.len() ==> text_lt(#[trigger] s[j], #[trigger] s[i])
}

/// Each line is no later than the one before it.
pub open spec fn descending(s: Seq<Seq<char>>) -> bool {
    forall|i: int, j: int| 0 <= i < j < s.len() ==> !text_lt(#[trigger] s[i], #[trigger] s[j])
}

proof fn lemma_push_to_set(s: Seq<Seq<char>>, x: Seq<char>)
    ensures
        s.push(x).to_set() == s.to_set().insert(x),
{
    let t = s.push(x);
    assert forall|v: Seq<char>| t.contains(v) <==> (s.contains(v) || v == x) by {
        if t.contains(v) {
            let k = choose|k: int| 0 <= k < t.len() && t[k] == v;
            if k < s.len() {
                assert(s[k] == v);
            }
        }
        if s.contains(v) {
            let k = choose|k: int| 0 <= k < s.len() && s[k] == v;
            assert(t[k] == v);
        }
        if v == x {
            assert(t[s.len() as int] == v);
        }
    }
    assert(t.to_set() =~= s.to_set().insert(x));
}

proof fn lemma_lt_irreflexive(a: Seq<char>)
    ensures
        !text_lt(a, a),
    decreases a.len(),
{
    if a.len() > 0 {
        lemma_lt_irreflexive(a.drop_first());
    }
}

proof fn lemma_lt_transitive(a: Seq<char>, b: Seq<char>, c: Seq<char>)
    requires
        text_lt(a, b),
        text_lt(b, c),
    ensures
        text_lt(a, c),
    decreases a.len(),
{
    if a.len() > 0 && b.len() > 0 && c.len() > 0 {
        if a[0] == b[0] && b[0] == c[0] {
            lemma_lt_transitive(a.drop_first(), b.drop_first(), c.drop_first());
        }
    }
}

proof fn lemma_lt_total(a: Seq<char>, b: Seq<char>)
    requires
        a != b,
    ensures
        text_lt(a, b) || text_lt(b, a),
    decreases a.len(),
{
    if a.len() > 0 && b.len() > 0 && a[0] == b[0] {
        if a.drop_first() == b.drop_first() {
            assert(a =~= seq![a[0]] + a.drop_first());
            assert(b =~= seq![b[0]] + b.drop_first());
        }
        lemma_lt_total(a.drop_first(), b.drop_first());
    } else if a.len() == 0 && b.len() == 0 {
        assert(a =~= b);
    }
}

proof fn lemma_lt_suffix(a: Seq<char>, b: Seq<char>, i: int)
    requires
        0 <= i <= a.len(),
        i <= b.len(),
        a.subrange(0, i) == b.subrange(0, i),
    ensures
        text_lt(a, b) == text_lt(a.subrange(i, a.len() as int), b.subrange(i, b.len() as int)),
    decreases i,
{
    if i > 0 {
        assert(a[0] == a.subrange(0, i)[0]);
        assert(b[0] == b.subrange(0, i)[0]);
        let a1 = a.drop_first();
        let b1 = b.drop_first();
        assert(a1.subrange(0, i - 1) =~= a.subrange(1, i));
        assert(b1.subrange(0, i - 1) =~= b.subrange(1, i));
        assert(a.subrange(1, i) =~= a.subrange(0, i).drop_first());
        assert(b.subrange(1, i) =~= b.subrange(0, i).drop_first());
        lemma_lt_suffix(a1, b1, i - 1);
        assert(a1.subrange(i - 1, a1.len() as int) =~= a.subrange(i, a.len() as int));
        assert(b1.subrange(i - 1, b1.len() as int) =~= b.subrange(i, b.len() as int));
    } else {
        assert(a.subrange(0, a.len() as int) =~= a);
        assert(b.subrange(0, b.len() as int) =~= b);
    }
}

/// Whether `a` comes before `b`.
pub fn text_less(a: &str, b: &str) -> (r: bool)
    ensures
        r == text_lt(a@, b@),
{
    let n = a.unicode_len();
    let m = b.unicode_len();
    let mut i: usize = 0;
    while i < n && i < m
        invariant
            n == a@.len(),
            m == b@.len(),
            i <= n,
            i <= m,
            a@.subrange(0, i as int) == b@.subrange(0, i as int),
        decreases n - i,
    {
        let x = a.get_char(i);
        let y = b.get_char(i);
        if x != y {
            proof {
                lemma_lt_suffix(a@, b@, i as int);
                let sa = a@.subrange(i as int, n as int);
                let sb = b@.subrange(i as int, m as int);
                assert(sa[0] == x && sb[0] == y);
            }
            return x < y;
        }
        assert(a@.subrange(0, i + 1) =~= a@.subrange(0, i as int).push(x));
        assert(b@.subrange(0, i + 1) =~= b@.subrange(0, i as int).push(y));
        i = i + 1;
    }
    proof {
        lemma_lt_suffix(a@, b@, i as int);
    }
    i == n && i < m
}

/// The lines in order, as `sort` prints them: ascending, or descending with
/// `reverse`; with `unique` each distinct line once.
pub fn sort_lines(lines: &Vec<String>, reverse: bool, unique: bool) -> (r: Vec<String>)
    ensures
        !unique ==> words(r@).to_multiset() == words(lines@).to_multiset(),
        unique ==> words(r@).to_set() == words(lines@).to_set(),
        !reverse ==> ascending(words(r@)),
        reverse ==> descending(words(r@)),
        unique && !reverse ==> strictly_ascending(words(r@)),
        unique && reverse ==> strictly_descending(words(r@)),
{
    broadcast use vstd::seq_lib::group_to_multiset_ensures;

    let ghost ws = words(lines@);
    let mut out: Vec<String> = Vec::new();
    let mut i: usize = 0;
    assert(words(out@) =~= Seq::<Seq<char>>::empty());
    assert(ws.subrange(0, 0) =~= Seq::<Seq<char>>::empty());
    while i < lines.len()
        invariant
            i <= lines@.len(),
            ws == words(lines@),
            ascending(words(out@)),
            unique ==> strictly_ascending(words(out@)),
            !unique ==> words(out@).to_multiset() == ws.subrange(0, i as int).to_multiset(),
            unique ==> words(out@).to_set() == ws.subrange(0, i as int).to_set(),
        decreases lines@.len() - i,
    {
        let x = lines[i].clone();
        let ghost o = words(out@);
        let ghost pre = ws.subrange(0, i + 1);
        assert(pre =~= ws.subrange(0, i as int).push(x@));
        let mut p: usize = 0;
        while p < out.len() && !text_less(x.as_str(), out[p].as_str())
            invariant
                p <= out@.len(),
                o == words(out@),
                forall|k: int| 0 <= k < p ==> !text_lt(x@, #[trigger] o[k]),
            decreases out@.len() - p,
        {
            p = p + 1;
        }
        let duplicate = unique && p > 0 && same_text(out[p - 1].as_str(), x.as_str());
        if duplicate {
            proof {
                assert(o[p - 1] == x@);
                lemma_push_to_set(ws.subrange(0, i as int), x@);
                assert(o.contains(x@));
                assert(o.to_set() =~= o.to_set().insert(x@));
            }
        } else {
            out.insert(p, x);
            proof {
                let o2 = words(out@);
                assert(o2 =~= o.insert(p as int, x@));
                assert forall|a: int, b: int| 0 <= a < b < o2.len() implies !text_lt(#[trigger] o2[b], #[trigger] o2[a]) by {
                    if b == p {
                        assert(o2[a] == o[a]);
                    } else if a == p {
                        assert(o2[b] == o[b - 1]);
                        if p < o.len() {
                            assert(text_lt(x@, o[p as int]));
                            if text_lt(o[b - 1], x@) {
                                lemma_lt_transitive(o[b - 1], x@, o[p as int]);
                                if b - 1 > p {
                                    assert(!text_lt(o[b - 1], o[p as int]));
                                } else {
                                    lemma_lt_irreflexive(o[p as int]);
                                }
                            }
                        }
                    } else if b < p {
                        assert(o2[a] == o[a] && o2[b] == o[b]);
                    } else if a < p {
                        assert(o2[a] == o[a] && o2[b] == o[b - 1]);
                    } else {
                        assert(o2[a] == o[a - 1] && o2[b] == o[b - 1]);
                    }
                }
                if unique {
                    assert forall|a: int, b: int| 0 <= a < b < o2.len() implies text_lt(#[trigger] o2[a], #[trigger] o2[b]) by {
                        if b == p {
                            assert(o2[a] == o[a]);
                            assert(!text_lt(x@, o[a]));
                            if a == p - 1 {
                                assert(o[a] != x@);
                                lemma_lt_total(o[a], x@);
                            } else {
                                assert(text_lt(o[a], o[p - 1]));
                                assert(o[p - 1] != x@);
                                lemma_lt_total(o[p - 1], x@);
                                lemma_lt_transitive(o[a], o[p - 1], x@);
                            }
                        } else if a == p {
                            assert(o2[b] == o[b - 1]);
                            assert(text_lt(x@, o[p as int]));
                            if b - 1 > p {
                                lemma_lt_transitive(x@, o[p as int], o[b - 1]);
                            }
                        } else if b < p {
                            assert(o2[a] == o[a] && o2[b] == o[b]);
                        } else if a < p {
                            assert(o2[a] == o[a] && o2[b] == o[b - 1]);
                        } else {
                            assert(o2[a] == o[a - 1] && o2[b] == o[b - 1]);
                        }
                    }
                    assert(o2.to_set() =~= o.to_set().insert(x@)) by {
                        assert forall|v: Seq<char>| o2.contains(v) <==> (o.contains(v) || v == x@) by {
                            if o2.contains(v) {
                                let k = choose|k: int| 0 <= k < o2.len() && o2[k] == v;
                                if k < p {
                                    assert(o[k] == v);
                                } else if k > p {
                                    assert(o[k - 1] == v);
                                }
                            }
                            if o.contains(v) {
                                let k = choose|k: int| 0 <= k < o.len() && o[k] == v;
                                if k < p {
                                    assert(o2[k] == v);
                                } else {
                                    assert(o2[k + 1] == v);
                                }
                            }
                            if v == x@ {
                                assert(o2[p as int] == v);
                            }
                        }
                    }
                    lemma_push_to_set(ws.subrange(0, i as int), x@);
                } else {
                    vstd::seq_lib::to_multiset_insert(o, p as int, x@);
                    vstd::seq_lib::to_multiset_build(ws.subrange(0, i as int), x@);
                }
            }
        }
        i = i + 1;
    }
    assert(ws.subrange(0, i as int) =~= ws);
    if reverse {
        let ghost o = words(out@);
        let mut r: Vec<String> = Vec::new();
        let mut k: usize = out.len();
        while k > 0
            invariant
                k <= out@.len(),
                o == words(out@),
                words(r@) == o.subrange(k as int, o.len() as int).reverse(),
            decreases k,
        {
            k = k - 1;
            let ghost r0 = words(r@);
            let x = out[k].clone();
            r.push(x);
            assert(words(r@) =~= r0.push(x@));
            assert(o.subrange(k as int, o.len() as int).reverse() =~= o.subrange(k + 1, o.len() as int).reverse().push(o[k as int]));
        }
        proof {
            assert(o.subrange(0, o.len() as int) =~= o);
            let rr = words(r@);
            assert(rr =~= o.reverse());
            o.lemma_reverse_to_multiset();
            assert forall|a: int, b: int| 0 <= a < b < rr.len() implies !text_lt(#[trigger] rr[a], #[trigger] rr[b]) by {
                assert(rr[a] == o[o.len() - 1 - a]);
                assert(rr[b] == o[o.len() - 1 - b]);
            }
            if unique {
                assert forall|a: int, b: int| 0 <= a < b < rr.len() implies text_lt(#[trigger] rr[b], #[trigger] rr[a]) by {
                    assert(rr[a] == o[o.len() - 1 - a]);
                    assert(rr[b] == o[o.len() - 1 - b]);
                }
            }
            assert(rr.to_set() =~= o.to_set()) by {
                assert forall|v: Seq<char>| rr.contains(v) <==> o.contains(v) by {
                    if rr.contains(v) {
                        let k = choose|k: int| 0 <= k < rr.len() && rr[k] == v;
                        assert(o[o.len() - 1 - k] == v);
                    }
                    if o.contains(v) {
                        let k = choose|k: int| 0 <= k < o.len() && o[k] == v;
                        assert(rr[o.len() - 1 - k] == v);
                    }
                }
            }
        }
        return r;
    }
    out
}

} // verus!
