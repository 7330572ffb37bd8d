//! Text properties: an ordered list of key/value pairs with distinct keys.

use vstd::prelude::*;

use crate::text;

verus! {

/// Key/value pairs in the order in which the keys were first set.
#[derive(Debug)]
pub struct Properties {
    entries: Vec<(String, String)>,
}

/// A list of key/value pairs.
pub type Pairs = Seq<(Seq<char>, Seq<char>)>;

/// The value of the first pair whose key is `key`.
pub open spec fn lookup(p: Pairs, key: Seq<char>) -> Option<Seq<char>>
    decreases p.len(),
{
    if p.len() == 0 {
        None
    } else if p[0].0 == key {
        Some(p[0].1)
    } else {
        lookup(p.skip(1), key)
    }
}

/// `p` with `key` set to `value`: in place when the key is there, else at the end.
pub open spec fn assign(p: Pairs, key: Seq<char>, value: Seq<char>) -> Pairs
    decreases p.len(),
{
    if p.len() == 0 {
        seq![(key, value)]
    } else if p[0].0 == key {
        seq![(key, value)] + p.skip(1)
    } else {
        seq![p[0]] + assign(p.skip(1), key, value)
    }
}

/// Whether no key occurs twice.
pub open spec fn distinct_keys(p: Pairs) -> bool {
    forall|i: int, j: int| 0 <= i < j < p.len() ==> (#[trigger] p[i]).0 != (#[trigger] p[j]).0
}

/// Setting a key makes its value readable and leaves every other key.
pub proof fn lemma_assign(p: Pairs, key: Seq<char>, value: Seq<char>)
    ensures
        lookup(assign(p, key, value), key) == Some(value),
        forall|k: Seq<char>| k != key ==> #[trigger] lookup(assign(p, key, value), k) == lookup(p, k),
    decreases p.len(),
{
    let a = assign(p, key, value);
    if p.len() == 0 {
        assert(a.skip(1) =~= Seq::empty());
        assert forall|k: Seq<char>| k != key implies #[trigger] lookup(a, k) == lookup(p, k) by {
            assert(lookup(a.skip(1), k) is None);
        }
    } else if p[0].0 == key {
        assert(a.skip(1) =~= p.skip(1));
    } else {
        lemma_assign(p.skip(1), key, value);
        assert(a.skip(1) =~= assign(p.skip(1), key, value));
        assert forall|k: Seq<char>| k != key implies #[trigger] lookup(a, k) == lookup(p, k) by {
            assert(lookup(assign(p.skip(1), key, value), k) == lookup(p.skip(1), k));
        }
    }
}

/// Setting a key keeps the keys distinct.
pub proof fn lemma_assign_distinct(p: Pairs, key: Seq<char>, value: Seq<char>)
    requires
        distinct_keys(p),
    ensures
        distinct_keys(assign(p, key, value)),
        forall|i: int| 0 <= i < assign(p, key, value).len() ==> {
            let m = #[trigger] assign(p, key, value)[i];
            m == (key, value) || p.contains(m)
        },
    decreases p.len(),
{
    let a = assign(p, key, value);
    if p.len() == 0 {
    } else if p[0].0 == key {
        assert forall|i: int, j: int| 0 <= i < j < a.len() implies (#[trigger] a[i]).0 != (#[trigger] a[j]).0 by {
            assert(a[j] == p[j]);
            if i > 0 {
                assert(a[i] == p[i]);
            }
            assert(p[i].0 == a[i].0);
        }
        assert forall|i: int| 0 <= i < a.len() implies #[trigger] a[i] == (key, value) || p.contains(a[i]) by {
            if i > 0 {
                assert(a[i] == p[i]);
            }
        }
    } else {
        let t = p.skip(1);
        assert forall|i: int, j: int| 0 <= i < j < t.len() implies (#[trigger] t[i]).0 != (#[trigger] t[j]).0 by {
            assert(t[i] == p[i + 1]);
            assert(t[j] == p[j + 1]);
        }
        lemma_assign_distinct(t, key, value);
        let at = assign(t, key, value);
        assert forall|i: int| 0 <= i < a.len() implies #[trigger] a[i] == (key, value) || p.contains(a[i]) by {
            if i > 0 {
                assert(a[i] == at[i - 1]);
                if a[i] != (key, value) {
                    let k = choose|k: int| 0 <= k < t.len() && t[k] == a[i];
                    assert(p[k + 1] == a[i]);
                }
            } else {
                assert(p[0] == a[0]);
            }
        }
        assert forall|i: int, j: int| 0 <= i < j < a.len() implies (#[trigger] a[i]).0 != (#[trigger] a[j]).0 by {
            assert(a[j] == at[j - 1]);
            if i > 0 {
                assert(a[i] == at[i - 1]);
            } else if at[j - 1] != (key, value) {
                let k = choose|k: int| 0 <= k < t.len() && t[k] == at[j - 1];
                assert(p[k + 1] == at[j - 1]);
            }
        }
    }
}

/// A key is found exactly when some pair has it.
pub proof fn lemma_lookup(p: Pairs, key: Seq<char>)
    ensures
        lookup(p, key) is Some <==> exists|i: int| 0 <= i < p.len() && (#[trigger] p[i]).0 == key,
    decreases p.len(),
{
    if p.len() > 0 && p[0].0 != key {
        lemma_lookup(p.skip(1), key);
        if lookup(p.skip(1), key) is Some {
            let i = choose|i: int| 0 <= i < p.skip(1).len() && (#[trigger] p.skip(1)[i]).0 == key;
            assert(p[i + 1].0 == key);
        }
        if exists|i: int| 0 <= i < p.len() && (#[trigger] p[i]).0 == key {
            let i = choose|i: int| 0 <= i < p.len() && (#[trigger] p[i]).0 == key;
            assert(p.skip(1)[i - 1].0 == key);
        }
    } else if p.len() > 0 {
        assert(p[0].0 == key);
    }
}

/// The pairs behind a list of owned pairs.
pub open spec fn pairs_view(v: Seq<(String, String)>) -> Pairs {
    v.map_values(|e: (String, String)| (e.0@, e.1@))
}

/// A copy of some pairs.
pub fn copy_pairs(v: &Vec<(String, String)>) -> (r: Vec<(String, String)>)
    ensures
        pairs_view(r@) == pairs_view(v@),
{
    let mut out: Vec<(String, String)> = Vec::new();
    let mut i: usize = 0;
    while i < v.len()
        invariant
            i <= v@.len(),
            out@.len() == i,
            forall|k: int| 0 <= k < i ==> (#[trigger] out@[k]).0@ == v@[k].0@ && out@[k].1@ == v@[k].1@,
        decreases v@.len() - i,
    {
        out.push((v[i].0.clone(), v[i].1.clone()));
        i += 1;
    }
    assert(pairs_view(out@) =~= pairs_view(v@));
    out
}

impl View for Properties {
    type V = Pairs;

    closed spec fn view(&self) -> Pairs {
        pairs_view(self.entries@)
    }
}

impl Properties {
    #[verifier::type_invariant]
    closed spec fn keys_are_distinct(self) -> bool {
        distinct_keys(pairs_view(self.entries@))
    }

    /// No pairs.
    pub fn new() -> (r: Self)
        ensures
            r@ == Seq::<(Seq<char>, Seq<char>)>::empty(),
    {
        let r = Properties { entries: Vec::new() };
        assert(r@ =~= Seq::<(Seq<char>, Seq<char>)>::empty());
        r
    }

    /// The number of pairs. No two have one key.
    pub fn len(&self) -> (r: usize)
        ensures
            r == self@.len(),
            distinct_keys(self@),
    {
        proof {
            use_type_invariant(self);
        }
        self.entries.len()
    }

    /// Whether there are no pairs.
    pub fn is_empty(&self) -> (r: bool)
        ensures
            r == (self@.len() == 0),
    {
        self.entries.len() == 0
    }

    /// The pair at position `i`.
    pub fn at(&self, i: usize) -> (r: &(String, String))
        requires
            i < self@.len(),
        ensures
            (r.0@, r.1@) == self@[i as int],
    {
        &self.entries[i]
    }

    /// The value of `key`.
    pub fn get(&self, key: &str) -> (r: Option<&String>)
        ensures
            match r {
                Some(v) => lookup(self@, key@) == Some(v@),
                None => lookup(self@, key@) is None,
            },
    {
        let mut i: usize = 0;
        proof {
            assert(self@.skip(0) =~= self@);
        }
        while i < self.entries.len()
            invariant
                i <= self@.len(),
                self@ == pairs_view(self.entries@),
                lookup(self@, key@) == lookup(self@.skip(i as int), key@),
            decreases self.entries@.len() - i,
        {
            proof {
                assert(self@.skip(i as int)[0] == self@[i as int]);
                assert(self@.skip(i as int).skip(1) =~= self@.skip(i + 1));
            }
            if text::same(self.entries[i].0.as_str(), key) {
                return Some(&self.entries[i].1);
            }
            i += 1;
        }
        None
    }

    /// The value of `key`, or an empty text.
    pub fn get_or_empty(&self, key: &str) -> (r: String)
        ensures
            r@ == match lookup(self@, key@) {
                Some(v) => v,
                None => Seq::<char>::empty(),
            },
    {
        match self.get(key) {
            Some(v) => v.clone(),
            None => String::new(),
        }
    }

    /// Sets `key` to `value`.
    pub fn insert(&mut self, key: String, value: String)
        ensures
            final(self)@ == assign(old(self)@, key@, value@),
    {
        proof {
            use_type_invariant(&*self);
            lemma_assign_distinct(self@, key@, value@);
        }
        let ghost p = self@;
        let mut entries: Vec<(String, String)> = Vec::new();
        std::mem::swap(&mut self.entries, &mut entries);
        let mut i: usize = 0;
        proof {
            assert(p.skip(0) =~= p);
            assert(p.take(0) + assign(p, key@, value@) =~= assign(p, key@, value@));
        }
        while i < entries.len() && !text::same(entries[i].0.as_str(), key.as_str())
            invariant
                i <= entries@.len(),
                p == pairs_view(entries@),
                assign(p, key@, value@) == p.take(i as int) + assign(p.skip(i as int), key@, value@),
            decreases entries@.len() - i,
        {
            proof {
                let s = p.skip(i as int);
                assert(s[0] == p[i as int]);
                assert(s.skip(1) =~= p.skip(i + 1));
                assert(p.take(i as int) + (seq![s[0]] + assign(s.skip(1), key@, value@)) =~= p.take(i + 1) + assign(
                    p.skip(i + 1),
                    key@,
                    value@,
                ));
            }
            i += 1;
        }
        let ghost s = p.skip(i as int);
        if i < entries.len() {
            assert(s[0] == p[i as int]);
            entries.set(i, (key, value));
            assert(pairs_view(entries@) =~= p.take(i as int) + (seq![(key@, value@)] + s.skip(1)));
        } else {
            entries.push((key, value));
            assert(pairs_view(entries@) =~= p.take(i as int) + seq![(key@, value@)]);
        }
        self.entries = entries;
    }

    /// A copy.
    pub fn copy(&self) -> (r: Self)
        ensures
            r@ == self@,
    {
        proof {
            use_type_invariant(self);
        }
        let mut entries: Vec<(String, String)> = Vec::new();
        let mut i: usize = 0;
        while i < self.entries.len()
            invariant
                i <= self.entries@.len(),
                entries@.len() == i,
                forall|k: int| 0 <= k < i ==> (#[trigger] entries@[k]).0@ == self.entries@[k].0@ && entries@[k].1@
                    == self.entries@[k].1@,
            decreases self.entries@.len() - i,
        {
            let key = self.entries[i].0.clone();
            let value = self.entries[i].1.clone();
            entries.push((key, value));
            i += 1;
        }
        assert(pairs_view(entries@) =~= pairs_view(self.entries@));
        Properties { entries }
    }
}

} // verus!
