//! Connections between members and what arrives over them.

use vstd::prelude::*;

use crate::text;

verus! {

/// One connection per member, shared by all requests to it.
#[derive(Debug)]
pub struct ChannelCache<C> {
    pub channels: Vec<(u64, C)>,
}

impl<C> ChannelCache<C> {
    /// Whether there is a connection to a member.
    pub open spec fn has(&self, target: u64) -> bool {
        exists|i: int| 0 <= i < self.channels@.len() && (#[trigger] self.channels@[i]).0 == target
    }

    /// No connections.
    pub fn new() -> (r: Self)
        ensures
            r.channels@.len() == 0,
    {
        ChannelCache { channels: Vec::new() }
    }

    /// The connection to a member.
    pub fn get(&self, target: u64) -> (r: Option<&C>)
        ensures
            match r {
                Some(c) => exists|i: int|
                    0 <= i < self.channels@.len() && #[trigger] self.channels@[i] == (target, *c),
                None => !self.has(target),
            },
    {
        let mut i: usize = 0;
        while i < self.channels.len()
            invariant
                i <= self.channels@.len(),
                forall|k: int| 0 <= k < i ==> (#[trigger] self.channels@[k]).0 != target,
            decreases self.channels@.len() - i,
        {
            if self.channels[i].0 == target {
                let c = &self.channels[i].1;
                assert(self.channels@[i as int] == (target, *c));
                return Some(c);
            }
            i += 1;
        }
        None
    }

    /// Drops the connection to a member, after a request to it failed. The next
    /// request connects anew; other connections stay.
    pub fn invalidate(&mut self, target: u64)
        ensures
            final(self).channels@ == others(old(self).channels@, target),
    {
        let ghost all = self.channels@;
        let mut queue: Vec<(u64, C)> = Vec::new();
        std::mem::swap(&mut self.channels, &mut queue);
        proof {
            assert(all.take(0) =~= Seq::empty());
            assert(all.skip(0) =~= all);
        }
        while queue.len() > 0
            invariant
                queue@.len() <= all.len(),
                queue@ == all.skip(all.len() - queue@.len()),
                self.channels@ == others(all.take(all.len() - queue@.len()), target),
            decreases queue@.len(),
        {
            let ghost done = all.len() - queue@.len();
            let e = queue.remove(0);
            proof {
                assert(e == all[done]);
                assert(queue@ =~= all.skip(done + 1));
                assert(all.take(done + 1).drop_last() =~= all.take(done));
                assert(all.take(done + 1).last() == e);
            }
            if e.0 != target {
                self.channels.push(e);
            }
        }
        assert(all.take(all.len() as int) =~= all);
    }

    /// Keeps a connection to a member, in place of an earlier one.
    pub fn insert(&mut self, target: u64, channel: C)
        ensures
            final(self).channels@ == others(old(self).channels@, target).push((target, channel)),
    {
        self.invalidate(target);
        self.channels.push((target, channel));
    }
}

/// The connections to members other than `target`.
pub open spec fn others<C>(s: Seq<(u64, C)>, target: u64) -> Seq<(u64, C)>
    decreases s.len(),
{
    if s.len() == 0 {
        s
    } else {
        let h = others(s.drop_last(), target);
        if s.last().0 == target { h } else { h.push(s.last()) }
    }
}

/// Dropping a connection leaves none to its member, and all others.
pub proof fn law_invalidation<C>(before: Seq<(u64, C)>, target: u64, e: (u64, C))
    ensures
        others(before, target).contains(e) <==> (before.contains(e) && e.0 != target),
    decreases before.len(),
{
    let r = others(before, target);
    if before.len() > 0 {
        let d = before.drop_last();
        law_invalidation(d, target, e);
        let h = others(d, target);
        if d.contains(e) {
            let i = choose|i: int| 0 <= i < d.len() && d[i] == e;
            assert(before[i] == e);
        }
        if before.contains(e) && !d.contains(e) {
            let i = choose|i: int| 0 <= i < before.len() && before[i] == e;
            if i < d.len() {
                assert(d[i] == e);
            }
        }
        if before.last().0 != target {
            if h.contains(e) {
                let i = choose|i: int| 0 <= i < h.len() && h[i] == e;
                assert(r[i] == e);
            }
            if e == before.last() {
                assert(r[r.len() - 1] == e);
            }
            if r.contains(e) {
                let i = choose|i: int| 0 <= i < r.len() && r[i] == e;
                if i < h.len() {
                    assert(h[i] == e);
                } else {
                    assert(before[before.len() - 1] == e);
                }
            }
        }
    }
}

/// Where the requests of other members arrive.
#[derive(Debug)]
pub struct RaftServiceHandler {
    /// This member.
    pub node_id: u64,
}

impl RaftServiceHandler {
    /// Accepts a snapshot that arrives in one piece.
    pub fn accept_snapshot(&self, done: bool, offset: u64) -> (r: Result<(), String>)
        ensures
            match r {
                Ok(_) => done && offset == 0,
                Err(e) => !(done && offset == 0) && e@
                    == "chunked snapshot transfer not supported; snapshots are one-shot JSON"@,
            },
    {
        if !done || offset != 0 {
            Err(text::owned("chunked snapshot transfer not supported; snapshots are one-shot JSON"))
        } else {
            Ok(())
        }
    }
}

} // verus!
