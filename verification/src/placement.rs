//! In which order workers are given the tasks of a new job: by the pressure that
//! they report.

use vstd::prelude::*;

use crate::master::{admission_view, registry_snapshot_admission, EntryV, WorkerRegistry};
use crate::props;
use crate::props::Pairs;

verus! {

/// A worker's id, address and load score, and whether it accepts tasks.
pub type Standing = (Seq<char>, Seq<char>, u32, bool);

/// Whether a worker is under less pressure than another one: it accepts tasks and
/// the other does not, or else its load score is lower.
pub open spec fn lighter(a: Standing, b: Standing) -> bool {
    if a.3 == b.3 { a.2 < b.2 } else { a.3 }
}

/// `s` with `e` behind the last worker that is under no more pressure.
pub open spec fn placed(s: Seq<Standing>, e: Standing) -> Seq<Standing>
    decreases s.len(),
{
    if s.len() > 0 && lighter(e, s.last()) { placed(s.drop_last(), e).push(s.last()) } else { s.push(e) }
}

/// Workers by rising pressure; those under the same pressure stay in their order.
pub open spec fn by_pressure(s: Seq<Standing>) -> Seq<Standing>
    decreases s.len(),
{
    if s.len() == 0 { s } else { placed(by_pressure(s.drop_last()), s.last()) }
}

/// The ids and addresses of the registered workers by rising pressure.
pub open spec fn placement(workers: Seq<EntryV>) -> Pairs {
    by_pressure(
        workers.map_values(|e: EntryV| (e.worker_id, e.address, e.load_score, e.can_accept)),
    ).map_values(|w: Standing| (w.0, w.1))
}

proof fn lemma_placed(s: Seq<Standing>, e: Standing)
    requires
        forall|i: int, j: int| 0 <= i < j < s.len() ==> !lighter(#[trigger] s[j], #[trigger] s[i]),
    ensures
        placed(s, e).to_multiset() == s.to_multiset().insert(e),
        placed(s, e).len() == s.len() + 1,
        forall|i: int, j: int|
            0 <= i < j < placed(s, e).len() ==> !lighter(#[trigger] placed(s, e)[j], #[trigger] placed(s, e)[i]),
        forall|i: int| 0 <= i < placed(s, e).len() ==> (#[trigger] placed(s, e)[i]) == e || s.contains(placed(s, e)[i]),
    decreases s.len(),
{
    broadcast use vstd::seq_lib::group_to_multiset_ensures;

    let r = placed(s, e);
    if s.len() > 0 && lighter(e, s.last()) {
        let d = s.drop_last();
        lemma_placed(d, e);
        let q = placed(d, e);
        assert(d.push(s.last()) =~= s);
        assert(r.to_multiset() =~= s.to_multiset().insert(e));
        assert forall|i: int| 0 <= i < r.len() implies (#[trigger] r[i]) == e || s.contains(r[i]) by {
            if i < q.len() {
                assert(q[i] == r[i]);
                if q[i] != e {
                    let k = choose|k: int| 0 <= k < d.len() && d[k] == q[i];
                    assert(s[k] == r[i]);
                }
            } else {
                assert(s[s.len() - 1] == r[i]);
            }
        }
        assert forall|i: int, j: int| 0 <= i < j < r.len() implies !lighter(#[trigger] r[j], #[trigger] r[i]) by {
            assert(q[i] == r[i]);
            if j < q.len() {
                assert(q[j] == r[j]);
            } else if q[i] != e {
                let k = choose|k: int| 0 <= k < d.len() && d[k] == q[i];
                assert(s[k] == r[i]);
                assert(!lighter(s[s.len() - 1], s[k]));
            }
        }
    } else {
        assert forall|i: int| 0 <= i < r.len() implies (#[trigger] r[i]) == e || s.contains(r[i]) by {
            if i < s.len() {
                assert(s[i] == r[i]);
            }
        }
        assert forall|i: int, j: int| 0 <= i < j < r.len() implies !lighter(#[trigger] r[j], #[trigger] r[i]) by {
            assert(s[i] == r[i]);
            if j < s.len() {
                assert(s[j] == r[j]);
            } else if i < s.len() - 1 {
                assert(!lighter(s[s.len() - 1], s[i]));
            }
        }
    }
}

/// The order by pressure holds the same workers, and none stands behind one that is
/// under more pressure.
pub proof fn law_by_pressure(s: Seq<Standing>)
    ensures
        by_pressure(s).to_multiset() == s.to_multiset(),
        forall|i: int, j: int|
            0 <= i < j < by_pressure(s).len() ==> !lighter(#[trigger] by_pressure(s)[j], #[trigger] by_pressure(s)[i]),
    decreases s.len(),
{
    broadcast use vstd::seq_lib::group_to_multiset_ensures;

    if s.len() > 0 {
        let d = s.drop_last();
        law_by_pressure(d);
        lemma_placed(by_pressure(d), s.last());
        assert(d.push(s.last()) =~= s);
    }
}

fn is_lighter(a: &(String, String, u32, bool), b: &(String, String, u32, bool)) -> (r: bool)
    ensures
        r == lighter((a.0@, a.1@, a.2, a.3), (b.0@, b.1@, b.2, b.3)),
{
    if a.3 == b.3 {
        a.2 < b.2
    } else {
        a.3
    }
}

fn place(s: &mut Vec<(String, String, u32, bool)>, e: (String, String, u32, bool))
    ensures
        admission_view(final(s)@) == placed(admission_view(old(s)@), (e.0@, e.1@, e.2, e.3)),
{
    let ghost v = admission_view(s@);
    let ghost x = (e.0@, e.1@, e.2, e.3);
    let mut at: usize = s.len();
    proof {
        assert(v.take(v.len() as int) =~= v);
        assert(placed(v, x) + v.skip(v.len() as int) =~= placed(v, x));
    }
    while at > 0 && is_lighter(&e, &s[at - 1])
        invariant
            at <= s@.len(),
            v == admission_view(s@),
            x == (e.0@, e.1@, e.2, e.3),
            placed(v, x) == placed(v.take(at as int), x) + v.skip(at as int),
        decreases at,
    {
        proof {
            let p = v.take(at as int);
            assert(p.last() == v[at - 1]);
            assert(p.drop_last() =~= v.take(at - 1));
            assert(placed(p, x) + v.skip(at as int) =~= placed(v.take(at - 1), x) + v.skip(at - 1));
        }
        at -= 1;
    }
    proof {
        let p = v.take(at as int);
        if at > 0 {
            assert(p.last() == v[at - 1]);
        }
        assert(placed(p, x) == p.push(x));
        assert(p.push(x) + v.skip(at as int) =~= v.insert(at as int, x));
    }
    s.insert(at, e);
    assert(admission_view(s@) =~= v.insert(at as int, x));
}

/// The registered workers by rising pressure: those that accept tasks first, and
/// among them the lowest load score.
pub fn placement_order(registry: &WorkerRegistry) -> (r: Vec<(String, String)>)
    ensures
        props::pairs_view(r@) == placement(registry@),
{
    let all = registry_snapshot_admission(registry);
    let ghost av = admission_view(all@);
    let mut sorted: Vec<(String, String, u32, bool)> = Vec::new();
    let mut i: usize = 0;
    proof {
        assert(av.take(0) =~= Seq::empty());
        assert(admission_view(sorted@) =~= Seq::empty());
    }
    while i < all.len()
        invariant
            i <= all@.len(),
            av == admission_view(all@),
            admission_view(sorted@) == by_pressure(av.take(i as int)),
        decreases all@.len() - i,
    {
        proof {
            assert(av.take(i + 1).drop_last() =~= av.take(i as int));
            assert(av.take(i + 1).last() == av[i as int]);
        }
        let e = (all[i].0.clone(), all[i].1.clone(), all[i].2, all[i].3);
        place(&mut sorted, e);
        i += 1;
    }
    assert(av.take(av.len() as int) =~= av);
    let mut out: Vec<(String, String)> = Vec::new();
    let mut k: usize = 0;
    while k < sorted.len()
        invariant
            k <= sorted@.len(),
            out@.len() == k,
            forall|n: int| 0 <= n < k ==> (#[trigger] out@[n]).0@ == sorted@[n].0@ && out@[n].1@ == sorted@[n].1@,
        decreases sorted@.len() - k,
    {
        out.push((sorted[k].0.clone(), sorted[k].1.clone()));
        k += 1;
    }
    assert(props::pairs_view(out@) =~= placement(registry@));
    out
}

} // verus!
