//! The replicated log as it is kept in memory and written to its file: one line
//! per entry.

use vstd::prelude::*;

verus! {

/// Names an entry.
#[derive(Debug, Clone, Copy, PartialEq, Eq, Structural)]
pub struct LogId {
    pub term: u64,
    pub node_id: u64,
    pub index: u64,
}

/// An entry, with its line in the file.
#[derive(Debug)]
pub struct LogEntry {
    pub log_id: LogId,
    pub line: Vec<u8>,
}

/// The mathematical value of an entry.
pub type EntryV = (LogId, Seq<u8>);

impl View for LogEntry {
    type V = EntryV;

    open spec fn view(&self) -> EntryV {
        (self.log_id, self.line@)
    }
}

/// Whether the entries are in the order of their indices, each of which occurs
/// once.
pub open spec fn rising(s: Seq<LogEntry>) -> bool {
    forall|i: int, j: int| 0 <= i < j < s.len() ==> (#[trigger] s[i]).log_id.index < (#[trigger] s[j]).log_id.index
}

/// The entry at an index.
pub open spec fn at_index(s: Seq<LogEntry>, index: u64) -> Option<EntryV>
    decreases s.len(),
{
    if s.len() == 0 {
        None
    } else if s.last().log_id.index == index {
        Some(s.last()@)
    } else {
        at_index(s.drop_last(), index)
    }
}

proof fn lemma_at_index(s: Seq<LogEntry>, index: u64)
    requires
        rising(s),
    ensures
        match at_index(s, index) {
            Some(e) => e.0.index == index && exists|i: int|
                0 <= i < s.len() && (#[trigger] s[i])@ == e && s[i].log_id.index == index,
            None => forall|i: int| 0 <= i < s.len() ==> (#[trigger] s[i]).log_id.index != index,
        },
    decreases s.len(),
{
    if s.len() > 0 && s.last().log_id.index != index {
        let d = s.drop_last();
        lemma_at_index(d, index);
        match at_index(d, index) {
            Some(e) => {
                let i = choose|i: int| 0 <= i < d.len() && (#[trigger] d[i])@ == e && d[i].log_id.index == index;
                assert(s[i]@ == e && s[i].log_id.index == index);
            },
            None => {
                assert forall|i: int| 0 <= i < s.len() implies (#[trigger] s[i]).log_id.index != index by {
                    if i < d.len() {
                        assert(d[i] == s[i]);
                    }
                }
            },
        }
    }
}

proof fn lemma_found(s: Seq<LogEntry>, i: int)
    requires
        rising(s),
        0 <= i < s.len(),
    ensures
        at_index(s, s[i].log_id.index) == Some(s[i]@),
{
    let n = s[i].log_id.index;
    lemma_at_index(s, n);
    match at_index(s, n) {
        Some(e) => {
            let k = choose|k: int| 0 <= k < s.len() && (#[trigger] s[k])@ == e && s[k].log_id.index == n;
            if k < i {
                assert(s[k].log_id.index < s[i].log_id.index);
            } else if i < k {
                assert(s[i].log_id.index < s[k].log_id.index);
            }
        },
        None => {
            assert(s[i].log_id.index != n);
        },
    }
}

/// A vote that was cast.
#[derive(Debug, Clone, Copy, PartialEq, Eq, Structural)]
pub struct Vote {
    pub term: u64,
    pub node_id: u64,
    pub committed: bool,
}

/// The log of a member.
#[derive(Debug)]
pub struct LogStore {
    entries: Vec<LogEntry>,
    vote: Option<Vote>,
    last_purged: Option<LogId>,
}

impl LogStore {
    /// The entries are in order.
    #[verifier::type_invariant]
    spec fn well_formed(self) -> bool {
        rising(self.entries@)
    }

    /// The entry at an index.
    pub closed spec fn entry(self, index: u64) -> Option<EntryV> {
        at_index(self.entries@, index)
    }

    /// The vote that was cast last.
    pub closed spec fn cast(self) -> Option<Vote> {
        self.vote
    }

    /// The last entry that was purged.
    pub closed spec fn purged(self) -> Option<LogId> {
        self.last_purged
    }

    /// An empty log.
    pub fn new() -> (r: Self)
        ensures
            forall|i: u64| #[trigger] r.entry(i) is None,
            r.cast() is None,
            r.purged() is None,
    {
        LogStore { entries: Vec::new(), vote: None, last_purged: None }
    }

    /// Takes an entry, in place of an earlier one at its index.
    pub fn append(&mut self, entry: LogEntry)
        ensures
            forall|i: u64|
                #[trigger] final(self).entry(i) == if i == entry.log_id.index {
                    Some(entry@)
                } else {
                    old(self).entry(i)
                },
            final(self).cast() == old(self).cast(),
            final(self).purged() == old(self).purged(),
    {
        proof {
            use_type_invariant(&*self);
        }
        let ghost before = self.entries@;
        let ghost e = entry@;
        let n: u64 = entry.log_id.index;
        let mut entries: Vec<LogEntry> = Vec::new();
        std::mem::swap(&mut self.entries, &mut entries);
        let mut at: usize = entries.len();
        while at > 0 && entries[at - 1].log_id.index >= n
            invariant
                at <= entries@.len(),
                rising(entries@),
                entries@ == before,
                forall|k: int| at <= k < entries@.len() ==> (#[trigger] entries@[k]).log_id.index >= n,
            decreases at,
        {
            at -= 1;
        }
        let replace: bool = at < entries.len() && entries[at].log_id.index == n;
        if replace {
            entries.set(at, entry);
        } else {
            entries.insert(at, entry);
        }
        proof {
            let after = entries@;
            assert forall|i: int| 0 <= i < at implies (#[trigger] before[i]).log_id.index < n by {
                if at > 0 && i < at - 1 {
                    assert(before[i].log_id.index < before[at - 1].log_id.index);
                }
            }
            assert(rising(after)) by {
                assert forall|i: int, j: int| 0 <= i < j < after.len() implies (#[trigger] after[i]).log_id.index < (
                #[trigger] after[j]).log_id.index by {
                    if replace {
                        if j == at {
                            assert(after[i] == before[i]);
                        } else if i == at {
                            assert(before[i].log_id.index < before[j].log_id.index);
                        } else {
                            assert(after[i] == before[i] && after[j] == before[j]);
                        }
                    } else if j == at {
                        assert(after[i] == before[i]);
                    } else if i == at {
                        assert(after[j] == before[j - 1]);
                        assert(before[j - 1].log_id.index >= n);
                        if before[j - 1].log_id.index == n {
                            if j - 1 > at {
                                assert(before[at as int].log_id.index < before[j - 1].log_id.index);
                                assert(before[at as int].log_id.index >= n);
                            }
                        }
                    } else {
                        let x = if i < at { i } else { i - 1 };
                        let y = if j < at { j } else { j - 1 };
                        assert(after[i] == before[x] && after[j] == before[y]);
                    }
                }
            }
            assert forall|i: u64| #[trigger] at_index(after, i) == if i == n { Some(e) } else { at_index(before, i) } by {
                if i == n {
                    assert(after[at as int]@ == e);
                    lemma_found(after, at as int);
                } else {
                    lemma_at_index(before, i);
                    lemma_at_index(after, i);
                    match at_index(before, i) {
                        Some(v) => {
                            let k = choose|k: int|
                                0 <= k < before.len() && (#[trigger] before[k])@ == v && before[k].log_id.index == i;
                            let m = if replace || k < at { k } else { k + 1 };
                            assert(after[m] == before[k]);
                            lemma_found(after, m);
                        },
                        None => {
                            match at_index(after, i) {
                                Some(v) => {
                                    let m = choose|m: int|
                                        0 <= m < after.len() && (#[trigger] after[m])@ == v && after[m].log_id.index
                                            == i;
                                    let k = if replace || m < at { m } else { m - 1 };
                                    assert(after[m] == before[k]);
                                },
                                None => {},
                            }
                        },
                    }
                }
            }
        }
        self.entries = entries;
    }

    /// Drops the entries from an index on.
    pub fn truncate(&mut self, log_id: LogId)
        ensures
            forall|i: u64| #[trigger] final(self).entry(i) == if i < log_id.index { old(self).entry(i) } else { None },
            final(self).cast() == old(self).cast(),
            final(self).purged() == old(self).purged(),
    {
        self.retain_between(None, Some(log_id.index));
    }

    /// Drops the entries up to an index, and notes it.
    pub fn purge(&mut self, log_id: LogId)
        ensures
            forall|i: u64| #[trigger] final(self).entry(i) == if i > log_id.index { old(self).entry(i) } else { None },
            final(self).cast() == old(self).cast(),
            final(self).purged() == Some(log_id),
    {
        self.retain_between(Some(log_id.index), None);
        proof {
            use_type_invariant(&*self);
        }
        let ghost mid = *self;
        self.last_purged = Some(log_id);
        assert forall|i: u64| #[trigger] self.entry(i) == mid.entry(i) by {}
    }

    fn retain_between(&mut self, above: Option<u64>, below: Option<u64>)
        ensures
            forall|i: u64|
                #[trigger] final(self).entry(i) == if within(i, above, below) { old(self).entry(i) } else { None },
            final(self).cast() == old(self).cast(),
            final(self).purged() == old(self).purged(),
    {
        proof {
            use_type_invariant(&*self);
        }
        let ghost before = self.entries@;
        let mut queue: Vec<LogEntry> = Vec::new();
        std::mem::swap(&mut self.entries, &mut queue);
        let mut kept: Vec<LogEntry> = Vec::new();
        proof {
            assert(before.skip(0) =~= before);
            assert(before.take(0) =~= Seq::empty());
        }
        while queue.len() > 0
            invariant
                queue@.len() <= before.len(),
                rising(before),
                rising(kept@),
                self.vote == old(self).vote,
                self.last_purged == old(self).last_purged,
                self.entries@.len() == 0,
                queue@ == before.skip(before.len() - queue@.len()),
                forall|i: int| 0 <= i < kept@.len() ==> within((#[trigger] kept@[i]).log_id.index, above, below),
                forall|i: int|
                    0 <= i < kept@.len() && queue@.len() > 0 ==> (#[trigger] kept@[i]).log_id.index
                        < queue@[0].log_id.index,
                forall|i: u64|
                    #[trigger] at_index(kept@, i) == if within(i, above, below) {
                        at_index(before.take(before.len() - queue@.len()), i)
                    } else {
                        None
                    },
            decreases queue@.len(),
        {
            let ghost done = before.len() - queue@.len();
            let ghost prev = kept@;
            let e = queue.remove(0);
            proof {
                assert(e == before[done]);
                assert(queue@ =~= before.skip(done + 1));
                assert(before.take(done + 1).drop_last() =~= before.take(done));
                assert(before.take(done + 1).last() == e);
                if queue@.len() > 0 {
                    assert(queue@[0] == before[done + 1]);
                    assert(before[done].log_id.index < before[done + 1].log_id.index);
                }
            }
            let n: u64 = e.log_id.index;
            let inside: bool = (match above {
                Some(a) => n > a,
                None => true,
            }) && (match below {
                Some(b) => n < b,
                None => true,
            });
            if inside {
                kept.push(e);
                assert(kept@.drop_last() =~= prev);
            }
            proof {
                assert forall|i: u64| #[trigger] at_index(kept@, i) == if within(i, above, below) {
                    at_index(before.take(done + 1), i)
                } else {
                    None
                } by {
                    assert(at_index(prev, i) == if within(i, above, below) {
                        at_index(before.take(done), i)
                    } else {
                        None
                    });
                }
            }
        }
        assert(before.take(before.len() as int) =~= before);
        self.entries = kept;
    }

    /// Copies of the entries from one index on, in order; with `to`, of those below it.
    pub fn try_get_log_entries(&self, from: u64, to: Option<u64>) -> (r: Vec<LogEntry>)
        ensures
            rising(r@),
            forall|i: u64| #[trigger] at_index(r@, i) == if from <= i && within(i, None, to) { self.entry(i) } else { None },
    {
        proof {
            use_type_invariant(self);
        }
        let ghost s = self.entries@;
        let mut out: Vec<LogEntry> = Vec::new();
        let mut k: usize = 0;
        assert(s.take(0) =~= Seq::empty());
        while k < self.entries.len()
            invariant
                k <= self.entries@.len(),
                s == self.entries@,
                rising(s),
                rising(out@),
                forall|i: int|
                    0 <= i < out@.len() && k < s.len() ==> (#[trigger] out@[i]).log_id.index < s[k as int].log_id.index,
                forall|i: u64|
                    #[trigger] at_index(out@, i) == if from <= i && within(i, None, to) { at_index(s.take(k as int), i) } else { None },
            decreases self.entries@.len() - k,
        {
            let ghost prev = out@;
            let e = &self.entries[k];
            proof {
                assert(s.take(k + 1).drop_last() =~= s.take(k as int));
                assert(s.take(k + 1).last() == e);
                if k + 1 < s.len() {
                    assert(s[k as int].log_id.index < s[k + 1].log_id.index);
                }
            }
            let n: u64 = e.log_id.index;
            let ends: bool = match to {
                Some(t) => n >= t,
                None => false,
            };
            if from <= n && !ends {
                let copy = LogEntry { log_id: e.log_id, line: crate::checkpoint_store::bytes_of(e.line.as_slice()) };
                out.push(copy);
                assert(out@.drop_last() =~= prev);
            }
            proof {
                assert forall|i: u64| #[trigger] at_index(out@, i) == if from <= i && within(i, None, to) {
                    at_index(s.take(k + 1), i)
                } else {
                    None
                } by {
                    assert(at_index(prev, i) == if from <= i && within(i, None, to) { at_index(s.take(k as int), i) } else { None });
                }
            }
            k += 1;
        }
        assert(s.take(s.len() as int) =~= s);
        out
    }

    /// The last entry that was purged, and the last one that is there.
    pub fn get_log_state(&self) -> (r: (Option<LogId>, Option<LogId>))
        ensures
            r.0 == self.purged(),
            match r.1 {
                Some(id) => self.entry(id.index) is Some && (self.entry(id.index)->0).0 == id && forall|i: u64|
                    i > id.index ==> #[trigger] self.entry(i) is None,
                None => forall|i: u64| #[trigger] self.entry(i) is None,
            },
    {
        proof {
            use_type_invariant(self);
        }
        let n: usize = self.entries.len();
        if n == 0 {
            (self.last_purged, None)
        } else {
            let id = self.entries[n - 1].log_id;
            proof {
                lemma_found(self.entries@, n - 1);
                assert forall|i: u64| i > id.index implies #[trigger] self.entry(i) is None by {
                    lemma_at_index(self.entries@, i);
                    if self.entry(i) is Some {
                        let v = self.entry(i)->0;
                        let k = choose|k: int|
                            0 <= k < self.entries@.len() && (#[trigger] self.entries@[k])@ == v
                                && self.entries@[k].log_id.index == i;
                        if k < n - 1 {
                            assert(self.entries@[k].log_id.index < self.entries@[n - 1].log_id.index);
                        }
                    }
                }
            }
            (self.last_purged, Some(id))
        }
    }

    /// Notes a vote.
    pub fn save_vote(&mut self, vote: Vote)
        ensures
            final(self).cast() == Some(vote),
            final(self).purged() == old(self).purged(),
            forall|i: u64| #[trigger] final(self).entry(i) == old(self).entry(i),
    {
        proof {
            use_type_invariant(&*self);
        }
        self.vote = Some(vote);
    }

    /// The vote that was noted last.
    pub fn read_vote(&self) -> (r: Option<Vote>)
        ensures
            r == self.cast(),
    {
        self.vote
    }
}

/// Whether an index lies between two bounds, as far as they are given.
pub open spec fn within(i: u64, above: Option<u64>, below: Option<u64>) -> bool {
    &&& match above {
        Some(a) => i > a,
        None => true,
    }
    &&& match below {
        Some(b) => i < b,
        None => true,
    }
}

// ---------------------------------------------------------------------------
// The file
// ---------------------------------------------------------------------------

/// The byte at the end of every line.
pub const NEWLINE: u8 = 10;

/// The bytes of a file of lines.
pub open spec fn file_bytes(lines: Seq<Seq<u8>>) -> Seq<u8>
    decreases lines.len(),
{
    if lines.len() == 0 {
        Seq::empty()
    } else {
        file_bytes(lines.drop_last()) + lines.last().push(NEWLINE)
    }
}

/// The lines of some bytes that are not empty: those that ended, and the rest.
pub open spec fn file_lines(bytes: Seq<u8>) -> (Seq<Seq<u8>>, Seq<u8>)
    decreases bytes.len(),
{
    if bytes.len() == 0 {
        (Seq::empty(), Seq::empty())
    } else {
        let h = file_lines(bytes.drop_last());
        if bytes.last() == NEWLINE {
            (if h.1.len() > 0 { h.0.push(h.1) } else { h.0 }, Seq::empty())
        } else {
            (h.0, h.1.push(bytes.last()))
        }
    }
}

/// All lines of some bytes that are not empty.
pub open spec fn lines_of(bytes: Seq<u8>) -> Seq<Seq<u8>> {
    let h = file_lines(bytes);
    if h.1.len() > 0 { h.0.push(h.1) } else { h.0 }
}

/// The bytes behind a list of lines.
pub open spec fn lines_view(v: Seq<Vec<u8>>) -> Seq<Seq<u8>> {
    v.map_values(|l: Vec<u8>| l@)
}

/// The bytes of a file of lines.
pub fn render_lines(lines: &Vec<Vec<u8>>) -> (r: Vec<u8>)
    ensures
        r@ == file_bytes(lines_view(lines@)),
{
    let ghost lv = lines_view(lines@);
    let mut out: Vec<u8> = Vec::new();
    let mut i: usize = 0;
    assert(lv.take(0) =~= Seq::empty());
    while i < lines.len()
        invariant
            i <= lines@.len(),
            lv == lines_view(lines@),
            out@ == file_bytes(lv.take(i as int)),
        decreases lines@.len() - i,
    {
        let ghost before = out@;
        let line = &lines[i];
        let mut k: usize = 0;
        assert(before + line@.take(0) =~= before);
        while k < line.len()
            invariant
                k <= line@.len(),
                out@ == before + line@.take(k as int),
            decreases line@.len() - k,
        {
            out.push(line[k]);
            assert(before + line@.take(k + 1) =~= (before + line@.take(k as int)).push(line@[k as int]));
            k += 1;
        }
        out.push(NEWLINE);
        proof {
            assert(line@.take(line@.len() as int) =~= line@);
            assert(lv.take(i + 1).drop_last() =~= lv.take(i as int));
            assert(lv.take(i + 1).last() == line@);
            assert(out@ =~= before + line@.push(NEWLINE));
        }
        i += 1;
    }
    assert(lv.take(lv.len() as int) =~= lv);
    out
}

/// The lines of a file that are not empty.
pub fn split_lines(bytes: &[u8]) -> (r: Vec<Vec<u8>>)
    ensures
        lines_view(r@) == lines_of(bytes@),
{
    let mut out: Vec<Vec<u8>> = Vec::new();
    let mut rest: Vec<u8> = Vec::new();
    let mut i: usize = 0;
    proof {
        assert(bytes@.take(0) =~= Seq::empty());
        assert(lines_view(out@) =~= Seq::empty());
    }
    while i < bytes.len()
        invariant
            i <= bytes@.len(),
            (lines_view(out@), rest@) == file_lines(bytes@.take(i as int)),
        decreases bytes@.len() - i,
    {
        proof {
            assert(bytes@.take(i + 1).drop_last() =~= bytes@.take(i as int));
            assert(bytes@.take(i + 1).last() == bytes@[i as int]);
        }
        let b: u8 = bytes[i];
        if b == NEWLINE {
            if rest.len() > 0 {
                let mut line: Vec<u8> = Vec::new();
                std::mem::swap(&mut rest, &mut line);
                let ghost prev = out@;
                let ghost lv = line@;
                out.push(line);
                assert(lines_view(out@) =~= lines_view(prev).push(lv));
            }
            assert(rest@ =~= Seq::empty());
        } else {
            rest.push(b);
        }
        i += 1;
    }
    assert(bytes@.take(bytes@.len() as int) =~= bytes@);
    if rest.len() > 0 {
        let ghost prev = out@;
        let ghost lv = rest@;
        out.push(rest);
        assert(lines_view(out@) =~= lines_view(prev).push(lv));
    }
    out
}

/// Whether some bytes can be a line.
pub open spec fn is_line(l: Seq<u8>) -> bool {
    l.len() > 0 && forall|i: int| 0 <= i < l.len() ==> #[trigger] l[i] != NEWLINE
}

proof fn lemma_tail(base: Seq<u8>, l: Seq<u8>)
    requires
        file_lines(base).1.len() == 0,
        forall|i: int| 0 <= i < l.len() ==> #[trigger] l[i] != NEWLINE,
    ensures
        file_lines(base + l) == (file_lines(base).0, l),
    decreases l.len(),
{
    if l.len() == 0 {
        assert(base + l =~= base);
        assert(file_lines(base).1 =~= l);
    } else {
        let d = l.drop_last();
        lemma_tail(base, d);
        assert((base + l).drop_last() =~= base + d);
        assert((base + l).last() == l[l.len() - 1]);
        assert(d.push(l.last()) =~= l);
    }
}

/// Reading a file gives back the lines that were written.
pub proof fn law_file_round_trip(lines: Seq<Seq<u8>>)
    requires
        forall|i: int| 0 <= i < lines.len() ==> is_line(#[trigger] lines[i]),
    ensures
        lines_of(file_bytes(lines)) == lines,
        file_lines(file_bytes(lines)) == (lines, Seq::<u8>::empty()),
    decreases lines.len(),
{
    if lines.len() == 0 {
        assert(file_lines(file_bytes(lines)).0 =~= lines);
    } else {
        let d = lines.drop_last();
        let l = lines.last();
        assert forall|i: int| 0 <= i < d.len() implies is_line(#[trigger] d[i]) by {
            assert(d[i] == lines[i]);
        }
        law_file_round_trip(d);
        assert(is_line(lines[lines.len() - 1]));
        lemma_tail(file_bytes(d), l);
        let b = file_bytes(lines);
        assert(b.drop_last() =~= file_bytes(d) + l);
        assert(b.last() == NEWLINE);
        assert(d.push(l) =~= lines);
    }
}

} // verus!
