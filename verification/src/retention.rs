//! Ordering by checkpoint id, bounded retention, and the names under which
//! checkpoints are kept.

use vstd::prelude::*;

use crate::text;

verus! {

/// `s` with `e` inserted behind the last item whose id is not above its own.
pub open spec fn insert_by_id<T>(s: Seq<(u64, T)>, e: (u64, T)) -> Seq<(u64, T)>
    decreases s.len(),
{
    if s.len() == 0 {
        seq![e]
    } else if s.last().0 <= e.0 {
        s.push(e)
    } else {
        insert_by_id(s.drop_last(), e).push(s.last())
    }
}

/// `s` in the order of the ids, items with one id in the order they had.
pub open spec fn sort_by_id<T>(s: Seq<(u64, T)>) -> Seq<(u64, T)>
    decreases s.len(),
{
    if s.len() == 0 {
        s
    } else {
        insert_by_id(sort_by_id(s.drop_last()), s.last())
    }
}

/// Whether the ids never decrease.
pub open spec fn by_id<T>(s: Seq<(u64, T)>) -> bool {
    forall|i: int, j: int| 0 <= i < j < s.len() ==> (#[trigger] s[i]).0 <= (#[trigger] s[j]).0
}

/// The last `keep` items, or all of them.
pub open spec fn newest<A>(s: Seq<A>, keep: nat) -> Seq<A> {
    if s.len() <= keep {
        s
    } else {
        s.skip(s.len() - keep)
    }
}

/// The items before the last `keep`.
pub open spec fn surplus<A>(s: Seq<A>, keep: nat) -> Seq<A> {
    if s.len() <= keep {
        Seq::empty()
    } else {
        s.take(s.len() - keep)
    }
}

proof fn lemma_insert_by_id<T>(s: Seq<(u64, T)>, e: (u64, T))
    requires
        by_id(s),
    ensures
        by_id(insert_by_id(s, e)),
        insert_by_id(s, e).to_multiset() =~= s.to_multiset().insert(e),
        insert_by_id(s, e).len() == s.len() + 1,
    decreases s.len(),
{
    broadcast use vstd::seq_lib::group_to_multiset_ensures;

    if s.len() == 0 {
        assert(seq![e] =~= s.push(e));
    } else if s.last().0 <= e.0 {
        let r = s.push(e);
        assert forall|i: int, j: int| 0 <= i < j < r.len() implies (#[trigger] r[i]).0 <= (#[trigger] r[j]).0 by {
            if j == s.len() && i < s.len() - 1 {
                assert(s[i].0 <= s[s.len() - 1].0);
            }
        }
    } else {
        let d = s.drop_last();
        lemma_insert_by_id(d, e);
        lemma_insert_members(d, e);
        let q = insert_by_id(d, e);
        let r = q.push(s.last());
        assert(s =~= d.push(s.last()));
        assert forall|i: int, j: int| 0 <= i < j < r.len() implies (#[trigger] r[i]).0 <= (#[trigger] r[j]).0 by {
            if j == q.len() {
                assert(r[i] == q[i]);
                if q[i] != e {
                    let k = choose|k: int| 0 <= k < d.len() && d[k] == q[i];
                    assert(s[k] == q[i]);
                }
            } else {
                assert(r[i] == q[i] && r[j] == q[j]);
            }
        }
    }
}

proof fn lemma_insert_members<T>(s: Seq<(u64, T)>, e: (u64, T))
    ensures
        forall|i: int| 0 <= i < insert_by_id(s, e).len() ==> #[trigger] insert_by_id(s, e)[i] == e || s.contains(
            insert_by_id(s, e)[i],
        ),
    decreases s.len(),
{
    if s.len() > 0 {
        lemma_insert_members(s.drop_last(), e);
        let r = insert_by_id(s, e);
        assert forall|i: int| 0 <= i < r.len() implies #[trigger] r[i] == e || s.contains(r[i]) by {
            if s.last().0 <= e.0 {
                if i < s.len() {
                    assert(s[i] == r[i]);
                }
            } else {
                let q = insert_by_id(s.drop_last(), e);
                if i < q.len() {
                    assert(r[i] == q[i]);
                    if q[i] != e {
                        let k = choose|k: int| 0 <= k < s.drop_last().len() && s.drop_last()[k] == q[i];
                        assert(s[k] == r[i]);
                    }
                } else {
                    assert(s[s.len() - 1] == r[i]);
                }
            }
        }
    }
}

/// Sorting keeps the items and puts their ids in order.
pub proof fn lemma_sort_by_id<T>(s: Seq<(u64, T)>)
    ensures
        by_id(sort_by_id(s)),
        sort_by_id(s).to_multiset() =~= s.to_multiset(),
        sort_by_id(s).len() == s.len(),
    decreases s.len(),
{
    broadcast use vstd::seq_lib::group_to_multiset_ensures;

    if s.len() > 0 {
        lemma_sort_by_id(s.drop_last());
        lemma_insert_by_id(sort_by_id(s.drop_last()), s.last());
        assert(s =~= s.drop_last().push(s.last()));
    }
}

/// Inserting behind everything that is not above is what sorting does to the
/// last item.
pub proof fn lemma_sort_push<T>(s: Seq<(u64, T)>, e: (u64, T))
    ensures
        sort_by_id(s.push(e)) == insert_by_id(sort_by_id(s), e),
{
    assert(s.push(e).drop_last() =~= s);
}

/// A sequence in order is already sorted.
pub proof fn lemma_sort_of_sorted<T>(s: Seq<(u64, T)>)
    requires
        by_id(s),
    ensures
        sort_by_id(s) == s,
    decreases s.len(),
{
    if s.len() > 0 {
        lemma_sort_of_sorted(s.drop_last());
        assert(s =~= s.drop_last().push(s.last()));
        if s.len() > 1 {
            assert(s[s.len() - 2].0 <= s[s.len() - 1].0);
        } else {
            assert(insert_by_id(s.drop_last(), s.last()) =~= s);
        }
    }
}

/// Sorting goes by the ids alone, so it commutes with replacing the payloads.
pub proof fn lemma_sort_map<T, U>(s: Seq<(u64, T)>, f: spec_fn((u64, T)) -> (u64, U))
    requires
        forall|e: (u64, T)| (#[trigger] f(e)).0 == e.0,
    ensures
        sort_by_id(s).map_values(f) == sort_by_id(s.map_values(f)),
    decreases s.len(),
{
    if s.len() == 0 {
        assert(s.map_values(f) =~= Seq::empty());
        assert(sort_by_id(s).map_values(f) =~= sort_by_id(s.map_values(f)));
    } else {
        lemma_sort_map(s.drop_last(), f);
        lemma_insert_map(sort_by_id(s.drop_last()), s.last(), f);
        assert(s.map_values(f).drop_last() =~= s.drop_last().map_values(f));
        assert(s.map_values(f).last() == f(s.last()));
    }
}

proof fn lemma_insert_map<T, U>(s: Seq<(u64, T)>, e: (u64, T), f: spec_fn((u64, T)) -> (u64, U))
    requires
        forall|x: (u64, T)| (#[trigger] f(x)).0 == x.0,
    ensures
        insert_by_id(s, e).map_values(f) == insert_by_id(s.map_values(f), f(e)),
    decreases s.len(),
{
    if s.len() == 0 {
        assert(insert_by_id(s, e).map_values(f) =~= seq![f(e)]);
        assert(s.map_values(f).len() == 0);
    } else {
        let m = s.map_values(f);
        assert(m.last() == f(s.last()));
        assert(m.drop_last() =~= s.drop_last().map_values(f));
        if s.last().0 <= e.0 {
            assert(s.push(e).map_values(f) =~= m.push(f(e)));
        } else {
            lemma_insert_map(s.drop_last(), e, f);
            let q = insert_by_id(s.drop_last(), e);
            assert(q.push(s.last()).map_values(f) =~= q.map_values(f).push(f(s.last())));
        }
    }
}

/// Sorts by id, items with one id staying in the order they had.
pub fn sorted_by_id<T>(items: Vec<(u64, T)>) -> (r: Vec<(u64, T)>)
    ensures
        r@ == sort_by_id(items@),
{
    let ghost all = items@;
    let mut items = items;
    let mut out: Vec<(u64, T)> = Vec::new();
    proof {
        assert(all.take(0) =~= Seq::empty());
        assert(out@ =~= sort_by_id(all.take(0)));
    }
    while items.len() > 0
        invariant
            items@.len() <= all.len(),
            items@ == all.skip(all.len() - items@.len()),
            out@ == sort_by_id(all.take(all.len() - items@.len())),
        decreases items@.len(),
    {
        let ghost done = all.len() - items@.len();
        let e = items.remove(0);
        proof {
            assert(e == all[done]);
            assert(all.take(done + 1) =~= all.take(done).push(e));
            lemma_sort_push(all.take(done), e);
            assert(items@ =~= all.skip(done + 1));
        }
        insert_item(&mut out, e);
    }
    proof {
        assert(all.take(all.len() as int) =~= all);
    }
    out
}

fn insert_item<T>(out: &mut Vec<(u64, T)>, e: (u64, T))
    ensures
        final(out)@ == insert_by_id(old(out)@, e),
{
    let ghost o = out@;
    let mut pos: usize = out.len();
    proof {
        assert(o.take(o.len() as int) =~= o);
        assert(insert_by_id(o, e) + o.skip(o.len() as int) =~= insert_by_id(o, e));
    }
    while pos > 0 && out[pos - 1].0 > e.0
        invariant
            pos <= out@.len(),
            o == out@,
            insert_by_id(o, e) == insert_by_id(o.take(pos as int), e) + o.skip(pos as int),
        decreases pos,
    {
        proof {
            let t = o.take(pos as int);
            assert(t.drop_last() =~= o.take(pos - 1));
            assert(t.last() == o[pos - 1]);
            assert(insert_by_id(t.drop_last(), e).push(t.last()) + o.skip(pos as int) =~= insert_by_id(
                o.take(pos - 1),
                e,
            ) + o.skip(pos - 1));
        }
        pos -= 1;
    }
    proof {
        let t = o.take(pos as int);
        if pos > 0 {
            assert(t.last() == o[pos - 1]);
            assert(insert_by_id(t, e) == t.push(e));
        } else {
            assert(insert_by_id(t, e) =~= t.push(e));
        }
    }
    out.insert(pos, e);
    proof {
        assert(out@ =~= o.take(pos as int).push(e) + o.skip(pos as int));
    }
}

/// Splits off what does not belong to the last `keep` items: the surplus comes
/// first in the result, what is kept second.
pub fn split_newest<A>(items: Vec<A>, keep: usize) -> (r: (Vec<A>, Vec<A>))
    ensures
        r.0@ == surplus(items@, keep as nat),
        r.1@ == newest(items@, keep as nat),
{
    if items.len() <= keep {
        (Vec::new(), items)
    } else {
        let mut items = items;
        let excess: usize = items.len() - keep;
        let kept = items.split_off(excess);
        proof {
            assert(items@ =~= surplus(items@ + kept@, keep as nat));
        }
        (items, kept)
    }
}

// ---------------------------------------------------------------------------
// Checkpoint names
// ---------------------------------------------------------------------------

/// The name of the file or object that holds checkpoint `id`.
pub open spec fn checkpoint_name(id: nat) -> Seq<char> {
    "cp-"@ + text::decimal_text(id) + ".state"@
}

/// The checkpoint id that a name carries.
pub open spec fn named_checkpoint(name: Seq<char>) -> Option<nat> {
    match text::between(name, "cp-"@, ".state"@) {
        Some(s) => text::unsigned_number(s, u64::MAX as nat),
        None => None,
    }
}

/// The name of the file or object that holds checkpoint `id`.
pub fn checkpoint_file_name(id: u64) -> (r: String)
    ensures
        r@ == checkpoint_name(id as nat),
{
    let digits = text::decimal(id);
    text::join3("cp-", digits.as_str(), ".state")
}

/// The checkpoint id that a name carries, if it is the name of a checkpoint.
pub fn checkpoint_id_of(name: &str) -> (r: Option<u64>)
    ensures
        match r {
            Some(id) => named_checkpoint(name@) == Some(id as nat),
            None => named_checkpoint(name@) is None,
        },
{
    match text::strip_both(name, "cp-", ".state") {
        Some(s) => text::parse_u64(s.as_str()),
        None => None,
    }
}

/// The name of a checkpoint carries its id.
pub proof fn law_checkpoint_name_round_trip(id: u64)
    ensures
        named_checkpoint(checkpoint_name(id as nat)) == Some(id as nat),
{
    let p = "cp-"@;
    let d = text::decimal_text(id as nat);
    let q = ".state"@;
    let n = checkpoint_name(id as nat);
    assert(n.take(p.len() as int) =~= p);
    assert(n.skip(p.len() as int) =~= d + q);
    assert((d + q).skip(d.len() as int) =~= q);
    assert(n.subrange(p.len() as int, n.len() - q.len()) =~= d);
    text::law_decimal_round_trip(id as nat, u64::MAX as nat);
}

/// The ids in a listing with the position of each in it; names that are not
/// those of checkpoints are passed over.
pub open spec fn listed(names: Seq<Seq<char>>) -> Seq<(u64, usize)>
    decreases names.len(),
{
    if names.len() == 0 {
        Seq::empty()
    } else {
        let head = listed(names.drop_last());
        match named_checkpoint(names.last()) {
            Some(id) => head.push((id as u64, (names.len() - 1) as usize)),
            None => head,
        }
    }
}

/// The ids in a listing with the position of each in it.
pub fn listed_checkpoints(names: &Vec<String>) -> (r: Vec<(u64, usize)>)
    ensures
        r@ == listed(text::views(names@)),
{
    let ghost all = text::views(names@);
    let mut out: Vec<(u64, usize)> = Vec::new();
    let mut i: usize = 0;
    proof {
        assert(all.take(0) =~= Seq::empty());
        assert(out@ =~= listed(all.take(0)));
    }
    while i < names.len()
        invariant
            i <= names@.len(),
            all == text::views(names@),
            out@ == listed(all.take(i as int)),
        decreases names@.len() - i,
    {
        proof {
            assert(all.take(i + 1).drop_last() =~= all.take(i as int));
            assert(all.take(i + 1).last() == names@[i as int]@);
        }
        match checkpoint_id_of(names[i].as_str()) {
            Some(id) => {
                out.push((id, i));
            },
            None => {},
        }
        i += 1;
    }
    proof {
        assert(all.take(all.len() as int) =~= all);
    }
    out
}

/// The first item with the highest id.
pub open spec fn highest<T>(s: Seq<(u64, T)>) -> Option<(u64, T)>
    decreases s.len(),
{
    if s.len() == 0 {
        None
    } else {
        match highest(s.drop_last()) {
            Some(b) => if s.last().0 > b.0 { Some(s.last()) } else { Some(b) },
            None => Some(s.last()),
        }
    }
}

/// The highest id is at least every other, and it is one of them.
pub proof fn lemma_highest<T>(s: Seq<(u64, T)>)
    ensures
        s.len() > 0 ==> highest(s) is Some && s.contains(highest(s)->0),
        forall|i: int| 0 <= i < s.len() ==> highest(s) is Some && (#[trigger] s[i]).0 <= (highest(s)->0).0,
    decreases s.len(),
{
    if s.len() > 0 {
        lemma_highest(s.drop_last());
        let h = highest(s)->0;
        if h != s.last() {
            let k = choose|k: int| 0 <= k < s.drop_last().len() && s.drop_last()[k] == h;
            assert(s[k] == h);
        } else {
            assert(s[s.len() - 1] == h);
        }
        assert forall|i: int| 0 <= i < s.len() implies (#[trigger] s[i]).0 <= h.0 by {
            if i < s.len() - 1 {
                assert(s.drop_last()[i] == s[i]);
            }
        }
    }
}

/// The newest checkpoint in a listing: its id and its position.
pub fn newest_listed(names: &Vec<String>) -> (r: Option<(u64, usize)>)
    ensures
        r == highest(listed(text::views(names@))),
{
    let ids = listed_checkpoints(names);
    let mut best: Option<(u64, usize)> = None;
    let mut i: usize = 0;
    proof {
        assert(ids@.take(0) =~= Seq::empty());
    }
    while i < ids.len()
        invariant
            i <= ids@.len(),
            best == highest(ids@.take(i as int)),
        decreases ids@.len() - i,
    {
        proof {
            assert(ids@.take(i + 1).drop_last() =~= ids@.take(i as int));
        }
        let item = ids[i];
        best = match best {
            Some(b) => if item.0 > b.0 { Some(item) } else { Some(b) },
            None => Some(item),
        };
        i += 1;
    }
    proof {
        assert(ids@.take(ids@.len() as int) =~= ids@);
    }
    best
}

/// The checkpoints of a listing that do not belong to the `keep` newest, as
/// positions in the listing, oldest first.
pub fn listed_surplus(names: &Vec<String>, keep: usize) -> (r: Vec<(u64, usize)>)
    ensures
        r@ == surplus(sort_by_id(listed(text::views(names@))), keep as nat),
{
    let sorted = sorted_by_id(listed_checkpoints(names));
    let (gone, _kept) = split_newest(sorted, keep);
    gone
}

/// Nothing that pruning removes is newer than anything that it keeps, and it
/// keeps at most `keep` checkpoints.
pub proof fn law_pruning_keeps_the_newest<T>(s: Seq<(u64, T)>, keep: nat)
    ensures
        newest(sort_by_id(s), keep).len() <= keep,
        surplus(sort_by_id(s), keep) + newest(sort_by_id(s), keep) == sort_by_id(s),
        forall|i: int, j: int|
            0 <= i < surplus(sort_by_id(s), keep).len() && 0 <= j < newest(sort_by_id(s), keep).len()
                ==> (#[trigger] surplus(sort_by_id(s), keep)[i]).0 <= (#[trigger] newest(sort_by_id(s), keep)[j]).0,
{
    lemma_sort_by_id(s);
    let o = sort_by_id(s);
    assert(surplus(o, keep) + newest(o, keep) =~= o);
    assert forall|i: int, j: int| 0 <= i < surplus(o, keep).len() && 0 <= j < newest(o, keep).len() implies (
    #[trigger] surplus(o, keep)[i]).0 <= (#[trigger] newest(o, keep)[j]).0 by {
        assert(surplus(o, keep)[i] == o[i]);
        assert(newest(o, keep)[j] == o[o.len() - keep + j]);
    }
}


// ---------------------------------------------------------------------------
// Expiry
// ---------------------------------------------------------------------------

/// The latest of some points in time.
pub open spec fn latest(times: Seq<u128>) -> Option<u128>
    decreases times.len(),
{
    if times.len() == 0 {
        None
    } else {
        match latest(times.drop_last()) {
            Some(t) => if times.last() > t { Some(times.last()) } else { Some(t) },
            None => Some(times.last()),
        }
    }
}

/// The latest point in time is one of them, and none comes after it.
pub proof fn lemma_latest(times: Seq<u128>)
    ensures
        match latest(times) {
            Some(t) => times.contains(t) && (forall|i: int| 0 <= i < times.len() ==> #[trigger] times[i] <= t),
            None => times.len() == 0,
        },
    decreases times.len(),
{
    if times.len() > 0 {
        lemma_latest(times.drop_last());
        let t = latest(times)->0;
        if t != times.last() {
            let k = choose|k: int| 0 <= k < times.drop_last().len() && times.drop_last()[k] == t;
            assert(times[k] == t);
        } else {
            assert(times[times.len() - 1] == t);
        }
        assert forall|i: int| 0 <= i < times.len() implies #[trigger] times[i] <= t by {
            if i < times.len() - 1 {
                assert(times.drop_last()[i] == times[i]);
            }
        }
    }
}

/// The latest of some points in time.
pub fn latest_of(times: &Vec<u128>) -> (r: Option<u128>)
    ensures
        r == latest(times@),
{
    let mut best: Option<u128> = None;
    let mut i: usize = 0;
    proof {
        assert(times@.take(0) =~= Seq::empty());
    }
    while i < times.len()
        invariant
            i <= times@.len(),
            best == latest(times@.take(i as int)),
        decreases times@.len() - i,
    {
        proof {
            assert(times@.take(i + 1).drop_last() =~= times@.take(i as int));
        }
        let t: u128 = times[i];
        best = match best {
            Some(b) => if t > b { Some(t) } else { Some(b) },
            None => Some(t),
        };
        i += 1;
    }
    proof {
        assert(times@.take(times@.len() as int) =~= times@);
    }
    best
}

/// Whether something last touched at `newest` has been idle for at least `ttl`
/// at the time `now`; a touch in the future counts as no idle time.
pub open spec fn idle(newest: u128, now: u128, ttl: u128) -> bool {
    (if now > newest { now - newest } else { 0 }) >= ttl
}

/// Whether something last touched at `newest` has been idle for at least `ttl`.
pub fn is_idle(newest: u128, now: u128, ttl: u128) -> (r: bool)
    ensures
        r == idle(newest, now, ttl),
{
    let age: u128 = if now > newest { now - newest } else { 0 };
    age >= ttl
}

} // verus!
