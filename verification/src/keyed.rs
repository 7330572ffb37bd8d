//! Ordered collections whose items carry a name: lookup, replacement and
//! removal by name.

use vstd::prelude::*;

use crate::text;

verus! {

/// A mathematical value that has a name.
pub trait Named: Sized {
    spec fn name(self) -> Seq<char>;
}

/// An item of an ordered collection, found by the name of its value.
pub trait Keyed: View where <Self as View>::V: Named {
    fn is_named(&self, name: &str) -> (r: bool)
        ensures
            r == (self@.name() == name@),
    ;
}

/// The values of a list of items.
pub open spec fn values<T: View>(s: Seq<T>) -> Seq<T::V> {
    s.map_values(|t: T| t@)
}

/// The position of the first value with a name.
pub open spec fn index_of<S: Named>(s: Seq<S>, name: Seq<char>) -> Option<int>
    decreases s.len(),
{
    if s.len() == 0 {
        None
    } else {
        match index_of(s.drop_last(), name) {
            Some(i) => Some(i),
            None => if s.last().name() == name { Some(s.len() - 1) } else { None },
        }
    }
}

/// The first value with a name.
pub open spec fn named<S: Named>(s: Seq<S>, name: Seq<char>) -> Option<S> {
    match index_of(s, name) {
        Some(i) => Some(s[i]),
        None => None,
    }
}

/// `s` with `e` in place of the value that has its name, or at the end.
pub open spec fn put<S: Named>(s: Seq<S>, e: S) -> Seq<S> {
    match index_of(s, e.name()) {
        Some(i) => s.update(i, e),
        None => s.push(e),
    }
}

/// `s` with all of `es` put into it, one after the other.
pub open spec fn put_all<S: Named>(s: Seq<S>, es: Seq<S>) -> Seq<S>
    decreases es.len(),
{
    if es.len() == 0 {
        s
    } else {
        put(put_all(s, es.drop_last()), es.last())
    }
}

/// Whether no two values have one name.
pub open spec fn distinct<S: Named>(s: Seq<S>) -> bool {
    forall|i: int, j: int| 0 <= i < j < s.len() ==> (#[trigger] s[i]).name() != (#[trigger] s[j]).name()
}

/// Where `index_of` points.
pub proof fn lemma_index_of<S: Named>(s: Seq<S>, name: Seq<char>)
    ensures
        match index_of(s, name) {
            Some(i) => 0 <= i < s.len() && s[i].name() == name && (forall|k: int|
                0 <= k < i ==> (#[trigger] s[k]).name() != name),
            None => forall|k: int| 0 <= k < s.len() ==> (#[trigger] s[k]).name() != name,
        },
    decreases s.len(),
{
    if s.len() > 0 {
        lemma_index_of(s.drop_last(), name);
        match index_of(s.drop_last(), name) {
            Some(i) => {
                assert forall|k: int| 0 <= k < i implies (#[trigger] s[k]).name() != name by {
                    assert(s.drop_last()[k] == s[k]);
                }
            },
            None => {
                assert forall|k: int| 0 <= k < s.len() - 1 implies (#[trigger] s[k]).name() != name by {
                    assert(s.drop_last()[k] == s[k]);
                }
            },
        }
    }
}

/// The first position with a name is where `index_of` points.
pub proof fn lemma_index_is<S: Named>(s: Seq<S>, name: Seq<char>, i: int)
    requires
        0 <= i < s.len(),
        s[i].name() == name,
        forall|k: int| 0 <= k < i ==> (#[trigger] s[k]).name() != name,
    ensures
        index_of(s, name) == Some(i),
{
    lemma_index_of(s, name);
}

/// What was put is found; what has another name is found as before.
pub proof fn lemma_put<S: Named>(s: Seq<S>, e: S)
    ensures
        named(put(s, e), e.name()) == Some(e),
        forall|n: Seq<char>| n != e.name() ==> #[trigger] named(put(s, e), n) == named(s, n),
{
    let p = put(s, e);
    lemma_index_of(s, e.name());
    match index_of(s, e.name()) {
        Some(i) => {
            assert forall|k: int| 0 <= k < i implies (#[trigger] p[k]).name() != e.name() by {
                assert(p[k] == s[k]);
            }
            lemma_index_is(p, e.name(), i);
            assert forall|n: Seq<char>| n != e.name() implies #[trigger] named(p, n) == named(s, n) by {
                lemma_index_of(s, n);
                lemma_index_of(p, n);
                match index_of(s, n) {
                    Some(j) => {
                        assert forall|k: int| 0 <= k < j implies (#[trigger] p[k]).name() != n by {
                            if k != i {
                                assert(p[k] == s[k]);
                            }
                        }
                        assert(p[j] == s[j]);
                        lemma_index_is(p, n, j);
                    },
                    None => {
                        assert forall|k: int| 0 <= k < p.len() implies (#[trigger] p[k]).name() != n by {
                            if k != i {
                                assert(p[k] == s[k]);
                            }
                        }
                    },
                }
            }
        },
        None => {
            assert(p.drop_last() =~= s);
            assert forall|n: Seq<char>| n != e.name() implies #[trigger] named(p, n) == named(s, n) by {
                lemma_index_of(s, n);
            }
        },
    }
}

/// Putting keeps the names distinct.
pub proof fn lemma_put_distinct<S: Named>(s: Seq<S>, e: S)
    requires
        distinct(s),
    ensures
        distinct(put(s, e)),
{
    let p = put(s, e);
    lemma_index_of(s, e.name());
    assert forall|i: int, j: int| 0 <= i < j < p.len() implies (#[trigger] p[i]).name() != (#[trigger] p[j]).name() by {
        match index_of(s, e.name()) {
            Some(x) => {
                if i == x {
                    assert(p[j] == s[j]);
                    assert(s[i].name() != s[j].name());
                } else if j == x {
                    assert(p[i] == s[i]);
                    assert(s[i].name() != s[j].name());
                } else {
                    assert(p[i] == s[i] && p[j] == s[j]);
                }
            },
            None => {
                assert(p[i] == s[i]);
                if j < s.len() {
                    assert(p[j] == s[j]);
                }
            },
        }
    }
}

/// The position of the item with a name.
pub fn find<T: Keyed>(items: &Vec<T>, name: &str) -> (r: Option<usize>) where <T as View>::V: Named
    ensures
        match r {
            Some(i) => i < items@.len() && index_of(values(items@), name@) == Some(i as int),
            None => index_of(values(items@), name@) is None,
        },
{
    let ghost s = values(items@);
    let mut i: usize = 0;
    while i < items.len()
        invariant
            i <= items@.len(),
            s == values(items@),
            forall|k: int| 0 <= k < i ==> (#[trigger] s[k]).name() != name@,
        decreases items@.len() - i,
    {
        assert(s[i as int] == items@[i as int]@);
        if items[i].is_named(name) {
            proof {
                lemma_index_is(s, name@, i as int);
            }
            return Some(i);
        }
        i += 1;
    }
    proof {
        lemma_index_of(s, name@);
    }
    None
}

/// Puts an item in place of the one called `name`, which must be its own name.
pub fn put_item<T: Keyed>(items: &mut Vec<T>, name: &str, item: T) where <T as View>::V: Named
    requires
        item@.name() == name@,
    ensures
        values(final(items)@) == put(values(old(items)@), item@),
{
    let ghost s = values(items@);
    match find(items, name) {
        Some(i) => {
            items.set(i, item);
            assert(values(items@) =~= s.update(i as int, item@));
        },
        None => {
            items.push(item);
            assert(values(items@) =~= s.push(item@));
        },
    }
}

// ---------------------------------------------------------------------------
// Order by name
// ---------------------------------------------------------------------------

/// An item that can tell its name.
pub trait Labelled: View where <Self as View>::V: Named {
    fn label(&self) -> (r: &str)
        ensures
            r@ == self@.name(),
    ;
}

/// `s` with `e` inserted behind the last value whose name does not come after its
/// own.
pub open spec fn insert_ordered<S: Named>(s: Seq<S>, e: S) -> Seq<S>
    decreases s.len(),
{
    if s.len() == 0 {
        seq![e]
    } else if !text::before(e.name(), s.last().name()) {
        s.push(e)
    } else {
        insert_ordered(s.drop_last(), e).push(s.last())
    }
}

/// `s` in the order of the names; values with one name stay in their order.
pub open spec fn ordered<S: Named>(s: Seq<S>) -> Seq<S>
    decreases s.len(),
{
    if s.len() == 0 {
        s
    } else {
        insert_ordered(ordered(s.drop_last()), s.last())
    }
}

/// Whether no name comes after the one behind it.
pub open spec fn is_ordered<S: Named>(s: Seq<S>) -> bool {
    forall|i: int, j: int| 0 <= i < j < s.len() ==> !text::before((#[trigger] s[j]).name(), (#[trigger] s[i]).name())
}

proof fn lemma_insert_ordered<S: Named>(s: Seq<S>, e: S)
    requires
        is_ordered(s),
    ensures
        is_ordered(insert_ordered(s, e)),
        insert_ordered(s, e).to_multiset() == s.to_multiset().insert(e),
    decreases s.len(),
{
    broadcast use vstd::seq_lib::group_to_multiset_ensures;

    let r = insert_ordered(s, e);
    if s.len() == 0 {
        assert(r =~= s.push(e));
    } else if !text::before(e.name(), s.last().name()) {
        assert forall|i: int, j: int| 0 <= i < j < r.len() implies !text::before(
            (#[trigger] r[j]).name(),
            (#[trigger] r[i]).name(),
        ) by {
            if j == s.len() && i < s.len() - 1 {
                assert(!text::before(s[s.len() - 1].name(), s[i].name()));
                text::lemma_not_before_transitive(s[i].name(), s.last().name(), e.name());
            }
        }
    } else {
        let d = s.drop_last();
        lemma_insert_ordered(d, e);
        let q = insert_ordered(d, e);
        assert(d.push(s.last()) =~= s);
        assert(r.to_multiset() =~= s.to_multiset().insert(e));
        assert forall|i: int, j: int| 0 <= i < j < r.len() implies !text::before(
            (#[trigger] r[j]).name(),
            (#[trigger] r[i]).name(),
        ) by {
            if j == q.len() {
                let x = q[i];
                assert(q.to_multiset().count(x) > 0) by {
                    assert(q.contains(x));
                }
                if x != e {
                    assert(d.to_multiset().count(x) > 0);
                    assert(d.contains(x));
                    let k = choose|k: int| 0 <= k < d.len() && d[k] == x;
                    assert(s[k] == x);
                    assert(!text::before(s[s.len() - 1].name(), s[k].name()));
                } else {
                    text::lemma_before_total(e.name(), s.last().name());
                }
            }
        }
    }
}

/// Ordering by name gives the same values in the order of their names.
pub proof fn law_ordered<S: Named>(s: Seq<S>)
    ensures
        is_ordered(ordered(s)),
        ordered(s).to_multiset() == s.to_multiset(),
    decreases s.len(),
{
    broadcast use vstd::seq_lib::group_to_multiset_ensures;

    if s.len() > 0 {
        law_ordered(s.drop_last());
        lemma_insert_ordered(ordered(s.drop_last()), s.last());
        assert(s.drop_last().push(s.last()) =~= s);
    }
}

/// Inserts an item behind the last one whose name does not come after its own.
pub fn insert_item<T: Labelled>(items: &mut Vec<T>, item: T) where <T as View>::V: Named
    ensures
        values(final(items)@) == insert_ordered(values(old(items)@), item@),
{
    let ghost s = values(items@);
    let mut i: usize = items.len();
    proof {
        assert(s.take(s.len() as int) =~= s);
        assert(insert_ordered(s, item@) + s.skip(s.len() as int) =~= insert_ordered(s, item@));
    }
    while i > 0
        invariant
            i <= items@.len(),
            s == values(items@),
            items@ == old(items)@,
            insert_ordered(s, item@) == insert_ordered(s.take(i as int), item@) + s.skip(i as int),
        decreases i,
    {
        proof {
            assert(s.take(i as int).last() == items@[i - 1]@);
            assert(s.take(i as int).drop_last() =~= s.take(i - 1));
        }
        if !text::is_before(item.label(), items[i - 1].label()) {
            proof {
                assert(insert_ordered(s, item@) =~= s.insert(i as int, item@));
            }
            let ghost before = items@;
            items.insert(i, item);
            assert(values(items@) =~= s.insert(i as int, item@));
            return;
        }
        proof {
            assert(insert_ordered(s.take(i - 1), item@).push(s[i - 1]) + s.skip(i as int) =~= insert_ordered(
                s.take(i - 1),
                item@,
            ) + s.skip(i - 1));
        }
        i -= 1;
    }
    proof {
        assert(s.take(0) =~= Seq::empty());
        assert(insert_ordered(s, item@) =~= s.insert(0, item@));
    }
    items.insert(0, item);
    assert(values(items@) =~= s.insert(0, item@));
}

} // verus!
