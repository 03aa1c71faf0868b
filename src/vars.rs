//! A map from variable names to values, kept as a list of unique names.
use crate::text::same_text;
use vstd::prelude::*;

verus! {

/// The map that a list of (name, value) pairs stands for; a later pair wins.
pub open spec fn pairs_to_map(s: Seq<(String, String)>) -> Map<Seq<char>, Seq<char>>
    decreases s.len(),
{
    if s.len() == 0 {
        Map::empty()
    } else {
        pairs_to_map(s.drop_last()).insert(s.last().0@, s.last().1@)
    }
}

/// No name occurs twice in the list.
pub open spec fn unique_names(s: Seq<(String, String)>) -> bool {
    forall|i: int, j: int| 0 <= i < s.len() && 0 <= j < s.len() && i != j ==> s[i].0@ != s[j].0@
}

proof fn lemma_map_has_index(s: Seq<(String, String)>, i: int)
    requires
        unique_names(s),
        0 <= i < s.len(),
    ensures
        pairs_to_map(s).contains_key(s[i].0@),
        pairs_to_map(s)[s[i].0@] == s[i].1@,
    decreases s.len(),
{
    if i < s.len() - 1 {
        let t = s.drop_last();
        assert(unique_names(t));
        lemma_map_has_index(t, i);
        assert(t[i] == s[i]);
        assert(s.last().0@ != s[i].0@);
    }
}

proof fn lemma_map_lacks(s: Seq<(String, String)>, k: Seq<char>)
    requires
        forall|i: int| 0 <= i < s.len() ==> s[i].0@ != k,
    ensures
        !pairs_to_map(s).contains_key(k),
    decreases s.len(),
{
    if s.len() > 0 {
        let t = s.drop_last();
        assert forall|i: int| 0 <= i < t.len() implies t[i].0@ != k by {
            assert(t[i] == s[i]);
        }
        lemma_map_lacks(t, k);
        assert(s.last() == s[s.len() - 1]);
    }
}

proof fn lemma_map_update(s: Seq<(String, String)>, i: int, p: (String, String))
    requires
        unique_names(s),
        0 <= i < s.len(),
        s[i].0@ == p.0@,
    ensures
        pairs_to_map(s.update(i, p)) == pairs_to_map(s).insert(p.0@, p.1@),
    decreases s.len(),
{
    let u = s.update(i, p);
    if i == s.len() - 1 {
        assert(u.drop_last() =~= s.drop_last());
        assert(pairs_to_map(u) =~= pairs_to_map(s).insert(p.0@, p.1@));
    } else {
        let t = s.drop_last();
        assert(unique_names(t));
        lemma_map_update(t, i, p);
        assert(u.drop_last() =~= t.update(i, p));
        assert(s.last() == s[s.len() - 1]);
        assert(s[s.len() - 1].0@ != s[i].0@);
        assert(pairs_to_map(u) =~= pairs_to_map(s).insert(p.0@, p.1@));
    }
}

/// Variables: names bound to values, each name at most once.
#[derive(Clone, Debug)]
pub struct VarMap {
    pairs: Vec<(String, String)>,
}

impl View for VarMap {
    type V = Map<Seq<char>, Seq<char>>;

    closed spec fn view(&self) -> Map<Seq<char>, Seq<char>> {
        pairs_to_map(self.pairs@)
    }
}

impl VarMap {
    /// Names are unique in the underlying list.
    pub closed spec fn wf(&self) -> bool {
        unique_names(self.pairs@)
    }

    /// An empty map.
    pub fn new() -> (r: VarMap)
        ensures
            r.wf(),
            r@ == Map::<Seq<char>, Seq<char>>::empty(),
    {
        VarMap { pairs: Vec::new() }
    }

    fn position(&self, name: &str) -> (r: Option<usize>)
        requires
            self.wf(),
        ensures
            match r {
                Some(i) => i < self.pairs@.len() && self.pairs@[i as int].0@ == name@,
                None => forall|i: int| 0 <= i < self.pairs@.len() ==> self.pairs@[i].0@ != name@,
            },
    {
        let mut i: usize = 0;
        while i < self.pairs.len()
            invariant
                i <= self.pairs@.len(),
                forall|j: int| 0 <= j < i ==> self.pairs@[j].0@ != name@,
            decreases self.pairs@.len() - i,
        {
            if same_text(self.pairs[i].0.as_str(), name) {
                return Some(i);
            }
            i = i + 1;
        }
        None
    }

    /// Whether `name` is bound.
    pub fn contains_key(&self, name: &str) -> (r: bool)
        requires
            self.wf(),
        ensures
            r == self@.contains_key(name@),
    {
        match self.position(name) {
            Some(i) => {
                proof {
                    lemma_map_has_index(self.pairs@, i as int);
                }
                true
            },
            None => {
                proof {
                    lemma_map_lacks(self.pairs@, name@);
                }
                false
            },
        }
    }

    /// The value bound to `name`, if any.
    pub fn get(&self, name: &str) -> (r: Option<String>)
        requires
            self.wf(),
        ensures
            match r {
                Some(v) => self@.contains_key(name@) && v@ == self@[name@],
                None => !self@.contains_key(name@),
            },
    {
        match self.position(name) {
            Some(i) => {
                proof {
                    lemma_map_has_index(self.pairs@, i as int);
                }
                Some(self.pairs[i].1.clone())
            },
            None => {
                proof {
                    lemma_map_lacks(self.pairs@, name@);
                }
                None
            },
        }
    }

    /// Bind `name` to `value`, replacing an earlier binding.
    pub fn insert(&mut self, name: String, value: String)
        requires
            old(self).wf(),
        ensures
            final(self).wf(),
            final(self)@ == old(self)@.insert(name@, value@),
    {
        match self.position(name.as_str()) {
            Some(i) => {
                let ghost s = self.pairs@;
                let p = (name, value);
                proof {
                    lemma_map_update(s, i as int, p);
                }
                self.pairs.set(i, p);
                assert(self.pairs@ == s.update(i as int, p));
            },
            None => {
                let ghost s = self.pairs@;
                self.pairs.push((name, value));
                assert(self.pairs@.drop_last() =~= s);
            },
        }
    }

    /// The number of bindings.
    pub closed spec fn spec_len(&self) -> nat {
        self.pairs@.len()
    }

    /// The number of bindings.
    pub fn len(&self) -> (r: usize)
        ensures
            r == self.spec_len(),
    {
        self.pairs.len()
    }

    /// The binding at position `i`, for listing all of them.
    pub fn entry(&self, i: usize) -> (r: (String, String))
        requires
            self.wf(),
            i < self.spec_len(),
        ensures
            self@.contains_key(r.0@),
            self@[r.0@] == r.1@,
    {
        proof {
            lemma_map_has_index(self.pairs@, i as int);
        }
        let p = &self.pairs[i];
        (p.0.clone(), p.1.clone())
    }
}

} // verus!
