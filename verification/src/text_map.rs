//! A map from text to numbers.
//!
//! Documents need a few of these, each with a few entries: which number a footnote has,
//! on which line an anchor stands.
use vstd::prelude::*;

use crate::text;

verus! {

/// A map from text to numbers, kept as a list of its entries.
#[derive(Debug)]
pub struct TextMap {
    entries: Vec<(String, usize)>,
}

/// The first entry among `v[i..]` that has the key `k`, or the length of `v`.
pub open spec fn first_with(v: Seq<(String, usize)>, k: Seq<char>, i: int) -> int
    decreases v.len() - i,
{
    if i < 0 || i >= v.len() {
        v.len() as int
    } else if v[i].0@ == k {
        i
    } else {
        first_with(v, k, i + 1)
    }
}

proof fn lemma_first_with(v: Seq<(String, usize)>, k: Seq<char>, i: int)
    requires
        0 <= i <= v.len(),
    ensures
        i <= first_with(v, k, i) <= v.len(),
        first_with(v, k, i) < v.len() ==> v[first_with(v, k, i)].0@ == k,
        forall|j: int| i <= j < first_with(v, k, i) ==> (#[trigger] v[j]).0@ != k,
    decreases v.len() - i,
{
    if i < v.len() && v[i].0@ != k {
        lemma_first_with(v, k, i + 1);
    }
}

/// The first entry with a key is the only one that decides.
proof fn lemma_first_is(v: Seq<(String, usize)>, k: Seq<char>, at: int)
    requires
        0 <= at <= v.len(),
        at < v.len() ==> v[at].0@ == k,
        forall|j: int| 0 <= j < at ==> (#[trigger] v[j]).0@ != k,
    ensures
        first_with(v, k, 0) == at,
{
    lemma_first_with(v, k, 0);
    let f = first_with(v, k, 0);
    if f < at {
        assert(v[f].0@ != k);
    } else if f > at {
        assert(v[at].0@ != k);
    }
}

/// The map that a list of entries stands for: the first entry of a key decides.
pub open spec fn map_of(v: Seq<(String, usize)>) -> Map<Seq<char>, usize> {
    Map::new(
        |k: Seq<char>| first_with(v, k, 0) < v.len(),
        |k: Seq<char>| v[first_with(v, k, 0)].1,
    )
}

/// Replacing the first entry of a key, or adding one at the end, sets that key.
proof fn lemma_inserted(
    v: Seq<(String, usize)>,
    w: Seq<(String, usize)>,
    key: Seq<char>,
    number: usize,
    at: int,
)
    requires
        at == first_with(v, key, 0),
        0 <= at <= v.len(),
        w.len() == (if at < v.len() {
            v.len()
        } else {
            v.len() + 1
        }),
        w[at].0@ == key,
        w[at].1 == number,
        forall|j: int| 0 <= j < v.len() && j != at ==> #[trigger] w[j] == v[j],
    ensures
        map_of(w) == map_of(v).insert(key, number),
{
    lemma_first_with(v, key, 0);
    let a = map_of(w);
    let b = map_of(v).insert(key, number);
    assert forall|k: Seq<char>|
        first_with(w, k, 0) == (if k == key {
            at
        } else if first_with(v, k, 0) < v.len() {
            first_with(v, k, 0)
        } else {
            w.len() as int
        }) by {
        lemma_first_with(v, k, 0);
        let f = first_with(v, k, 0);
        if k == key {
            lemma_first_is(w, k, at);
        } else if f < v.len() {
            lemma_first_is(w, k, f);
        } else {
            lemma_first_is(w, k, w.len() as int);
        }
    }
    assert(a.dom() =~= b.dom());
    assert forall|k: Seq<char>| a.dom().contains(k) implies #[trigger] a[k] == b[k] by {
        lemma_first_with(v, k, 0);
    }
    assert(a =~= b);
}

impl View for TextMap {
    type V = Map<Seq<char>, usize>;

    closed spec fn view(&self) -> Map<Seq<char>, usize> {
        map_of(self.entries@)
    }
}

impl Default for TextMap {
    fn default() -> (r: TextMap)
        ensures
            r@ == Map::<Seq<char>, usize>::empty(),
    {
        TextMap::new()
    }
}

impl TextMap {
    pub fn new() -> (r: TextMap)
        ensures
            r@ == Map::<Seq<char>, usize>::empty(),
    {
        let r = TextMap { entries: Vec::new() };
        assert(r@ =~= Map::<Seq<char>, usize>::empty());
        r
    }

    fn find(&self, key: &str) -> (r: usize)
        ensures
            r == first_with(self.entries@, key@, 0),
            r <= self.entries.len(),
    {
        let mut i: usize = 0;
        while i < self.entries.len() && !text::same(&self.entries[i].0, key)
            invariant
                i <= self.entries.len(),
                first_with(self.entries@, key@, i as int) == first_with(self.entries@, key@, 0),
            decreases self.entries.len() - i,
        {
            i = i + 1;
        }
        i
    }

    pub fn get(&self, key: &str) -> (r: Option<usize>)
        ensures
            r == (if self@.dom().contains(key@) {
                Some(self@[key@])
            } else {
                None
            }),
    {
        let i = self.find(key);
        if i < self.entries.len() {
            Some(self.entries[i].1)
        } else {
            None
        }
    }

    /// Sets the number of a key, whether it had one or not.
    pub fn insert(&mut self, key: String, number: usize)
        ensures
            final(self)@ == old(self)@.insert(key@, number),
    {
        let i = self.find(&key);
        let ghost v = self.entries@;
        let ghost k0 = key@;
        proof {
            lemma_first_with(v, k0, 0);
        }
        if i < self.entries.len() {
            self.entries.set(i, (key, number));
        } else {
            self.entries.push((key, number));
        }
        let ghost w = self.entries@;
        proof {
            lemma_inserted(v, w, k0, number, i as int);
        }
    }
}

} // verus!
