use vstd::prelude::*;
use crate::value::Number;

verus! {

/// One write into the output map: a path and the number written there.
pub type Write = (Seq<char>, Number);

/// The map that results from performing the writes `w` in order on an empty
/// map: a later write to a path replaces an earlier one.
pub open spec fn apply_writes(w: Seq<Write>) -> Map<Seq<char>, Number>
    decreases w.len(),
{
    if w.len() == 0 {
        Map::empty()
    } else {
        apply_writes(w.drop_last()).insert(w.last().0, w.last().1)
    }
}

/// No path occurs twice among the writes `w`.
pub open spec fn unique_paths(w: Seq<Write>) -> bool {
    forall|i: int, j: int| 0 <= i < w.len() && 0 <= j < w.len() && i != j ==> w[i].0 != w[j].0
}

proof fn lemma_apply_contains(w: Seq<Write>, k: Seq<char>)
    ensures
        apply_writes(w).contains_key(k) <==> exists|i: int| 0 <= i < w.len() && w[i].0 == k,
    decreases w.len(),
{
    if w.len() > 0 {
        lemma_apply_contains(w.drop_last(), k);
        if apply_writes(w.drop_last()).contains_key(k) {
            let i = choose|i: int| 0 <= i < w.drop_last().len() && w.drop_last()[i].0 == k;
            assert(w[i].0 == k);
        }
        if exists|i: int| 0 <= i < w.len() && w[i].0 == k {
            let i = choose|i: int| 0 <= i < w.len() && w[i].0 == k;
            if i < w.len() - 1 {
                assert(w.drop_last()[i].0 == k);
            }
        }
    }
}

proof fn lemma_apply_value(w: Seq<Write>, i: int)
    requires
        unique_paths(w),
        0 <= i < w.len(),
    ensures
        apply_writes(w).contains_key(w[i].0),
        apply_writes(w)[w[i].0] == w[i].1,
    decreases w.len(),
{
    if i < w.len() - 1 {
        assert(unique_paths(w.drop_last()));
        lemma_apply_value(w.drop_last(), i);
        assert(w.drop_last()[i] == w[i]);
    }
}

proof fn lemma_apply_len(w: Seq<Write>)
    requires
        unique_paths(w),
    ensures
        apply_writes(w).dom().finite(),
        apply_writes(w).dom().len() == w.len(),
    decreases w.len(),
{
    if w.len() > 0 {
        let p = w.drop_last();
        assert(unique_paths(p));
        lemma_apply_len(p);
        lemma_apply_contains(p, w.last().0);
        if apply_writes(p).contains_key(w.last().0) {
            let i = choose|i: int| 0 <= i < p.len() && p[i].0 == w.last().0;
            assert(w[i].0 == w[w.len() - 1].0);
        }
    }
}

proof fn lemma_apply_update(w: Seq<Write>, i: int, x: Write)
    requires
        unique_paths(w),
        0 <= i < w.len(),
        w[i].0 == x.0,
    ensures
        apply_writes(w.update(i, x)) == apply_writes(w).insert(x.0, x.1),
    decreases w.len(),
{
    let u = w.update(i, x);
    if i == w.len() - 1 {
        assert(u.drop_last() =~= w.drop_last());
        assert(apply_writes(u) =~= apply_writes(w).insert(x.0, x.1));
    } else {
        let p = w.drop_last();
        assert(unique_paths(p));
        lemma_apply_update(p, i, x);
        assert(u.drop_last() =~= p.update(i, x));
        assert(w.last().0 != x.0);
        assert(apply_writes(u) =~= apply_writes(w).insert(x.0, x.1));
    }
}

/// The flat output: a map from path strings to numbers, kept as a list of
/// entries with distinct paths.
#[derive(Debug)]
pub struct FlatMap {
    entries: Vec<(String, Number)>,
}

impl View for FlatMap {
    type V = Map<Seq<char>, Number>;

    closed spec fn view(&self) -> Map<Seq<char>, Number> {
        apply_writes(self.writes())
    }
}

impl FlatMap {
    /// The entries as writes, in the order they are kept.
    pub closed spec fn writes(&self) -> Seq<Write> {
        self.entries@.map_values(|e: (String, Number)| (e.0@, e.1))
    }

    pub closed spec fn wf(&self) -> bool {
        unique_paths(self.writes())
    }


    /// An empty map.
    pub fn new() -> (r: FlatMap)
        ensures
            r.wf(),
            r@ == Map::<Seq<char>, Number>::empty(),
    {
        let r = FlatMap { entries: Vec::new() };
        assert(r.writes() =~= Seq::<Write>::empty());
        r
    }

    /// Writes `n` at `path`, replacing what was there.
    pub fn insert(&mut self, path: String, n: Number)
        requires
            old(self).wf(),
        ensures
            final(self).wf(),
            final(self)@ == old(self)@.insert(path@, n),
    {
        let ghost w = self.writes();
        let len = self.entries.len();
        let mut i: usize = 0;
        while i < len
            invariant
                len == self.entries.len(),
                0 <= i <= len,
                self.writes() == w,
                w == old(self).writes(),
                unique_paths(w),
                forall|j: int| 0 <= j < i ==> w[j].0 != path@,
            decreases len - i,
        {
            assert(w[i as int] == (self.entries@[i as int].0@, self.entries@[i as int].1));
            if self.entries[i].0 == path {
                self.entries.set(i, (path, n));
                proof {
                    let u = w.update(i as int, (path@, n));
                    assert(self.writes() =~= u);
                    assert forall|a: int| 0 <= a < u.len() implies u[a].0 == w[a].0 by {}
                    lemma_apply_update(w, i as int, (path@, n));
                }
                return;
            }
            i = i + 1;
        }
        self.entries.push((path, n));
        assert(self.writes() =~= w.push((path@, n)));
        assert(self.writes().drop_last() =~= w);
    }

    /// The number at `path`, if any.
    pub fn get(&self, path: &str) -> (r: Option<&Number>)
        requires
            self.wf(),
        ensures
            r is Some <==> self@.contains_key(path@),
            r matches Some(n) ==> *n == self@[path@],
    {
        let key = String::from_str(path);
        let ghost w = self.writes();
        let mut i: usize = 0;
        while i < self.entries.len()
            invariant
                0 <= i <= self.entries.len(),
                self.wf(),
                key@ == path@,
                w == self.writes(),
                forall|j: int| 0 <= j < i ==> w[j].0 != path@,
            decreases self.entries.len() - i,
        {
            assert(w[i as int] == (self.entries@[i as int].0@, self.entries@[i as int].1));
            if self.entries[i].0 == key {
                proof {
                    assert(w[i as int].0 == path@);
                    lemma_apply_value(w, i as int);
                }
                return Some(&self.entries[i].1);
            }
            i = i + 1;
        }
        proof {
            lemma_apply_contains(w, path@);
        }
        None
    }

    /// The number of paths in the map.
    pub fn len(&self) -> (r: usize)
        requires
            self.wf(),
        ensures
            r == self@.dom().len(),
    {
        proof {
            lemma_apply_len(self.writes());
        }
        self.entries.len()
    }

    /// The entries, each path once, in the order the paths were first written.
    pub fn into_entries(self) -> (r: Vec<(String, Number)>)
        requires
            self.wf(),
        ensures
            r@.len() == self@.dom().len(),
            forall|i: int| 0 <= i < r@.len() ==> self@.contains_key(#[trigger] r@[i].0@)
                && self@[r@[i].0@] == r@[i].1,
    {
        proof {
            lemma_apply_len(self.writes());
            assert forall|i: int| 0 <= i < self.entries@.len() implies self@.contains_key(
                #[trigger] self.entries@[i].0@,
            ) && self@[self.entries@[i].0@] == self.entries@[i].1 by {
                assert(self.writes()[i] == (self.entries@[i].0@, self.entries@[i].1));
                lemma_apply_value(self.writes(), i);
            }
        }
        self.entries
    }
}

} // verus!
