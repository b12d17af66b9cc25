//! The log store: an index-addressed sequence of term-tagged entries.
use vstd::prelude::*;

verus! {

/// The mathematical value of one log entry: the term it was created in and its command.
pub type EntryModel = (u64, Seq<u8>);

/// One entry of the replicated log.
#[derive(Clone, Debug, PartialEq)]
pub struct LogEntry {
    pub term: u64,
    /// 1-based position of the entry in the log.
    pub index: u64,
    pub data: Vec<u8>,
}

impl View for LogEntry {
    type V = EntryModel;

    open spec fn view(&self) -> EntryModel {
        (self.term, self.data@)
    }
}

/// Copies a byte string element by element.
pub fn copy_bytes(b: &[u8]) -> (r: Vec<u8>)
    ensures
        r@ == b@,
{
    let mut r: Vec<u8> = Vec::with_capacity(b.len());
    let mut i: usize = 0;
    while i < b.len()
        invariant
            i <= b@.len(),
            r@ == b@.subrange(0, i as int),
        decreases b.len() - i,
    {
        r.push(b[i]);
        i += 1;
    }
    assert(r@ =~= b@);
    r
}

/// Whether two byte strings are equal.
pub fn bytes_equal(a: &[u8], b: &[u8]) -> (r: bool)
    ensures
        r == (a@ == b@),
{
    if a.len() != b.len() {
        return false;
    }
    let mut i: usize = 0;
    while i < a.len()
        invariant
            i <= a@.len(),
            a@.len() == b@.len(),
            forall|k: int| 0 <= k < i ==> a@[k] == b@[k],
        decreases a.len() - i,
    {
        if a[i] != b[i] {
            assert(a@[i as int] != b@[i as int]);
            return false;
        }
        i += 1;
    }
    assert(a@ =~= b@);
    true
}

impl LogEntry {
    /// A deep copy of the entry.
    pub fn copy(&self) -> (r: LogEntry)
        ensures
            r@ == self@,
            r.index == self.index,
    {
        LogEntry { term: self.term, index: self.index, data: copy_bytes(self.data.as_slice()) }
    }
}

/// The abstract sequence of entries held by a vector, ignoring stored positions.
pub open spec fn entries_model(v: Seq<LogEntry>) -> Seq<EntryModel> {
    Seq::new(v.len(), |i: int| v[i]@)
}

/// Entries whose stored positions run consecutively from `first`.
pub open spec fn indexed_from(v: Seq<LogEntry>, first: int) -> bool {
    forall|k: int| 0 <= k < v.len() ==> #[trigger] v[k].index == first + k
}

/// Term of the last entry, or 0 for the empty log.
pub open spec fn last_term_of(log: Seq<EntryModel>) -> u64 {
    if log.len() == 0 {
        0
    } else {
        log.last().0
    }
}

/// Term of the entry at 1-based `index`, absent beyond the ends of the log.
pub open spec fn term_at(log: Seq<EntryModel>, index: int) -> Option<u64> {
    if 1 <= index <= log.len() {
        Some(log[index - 1].0)
    } else {
        None
    }
}

/// The entries from 1-based `index` to the end (empty past the end).
pub open spec fn suffix_from(log: Seq<EntryModel>, index: int) -> Seq<EntryModel> {
    if index - 1 >= log.len() {
        Seq::empty()
    } else {
        log.subrange(index - 1, log.len() as int)
    }
}

/// The log with the entry at 1-based `index` and all later ones dropped.
pub open spec fn truncated(log: Seq<EntryModel>, index: int) -> Seq<EntryModel> {
    if index - 1 >= log.len() {
        log
    } else {
        log.subrange(0, index - 1)
    }
}

/// Whether offered entry `k` (placed after `prev`) is already in the log with the same term.
pub open spec fn agrees_at(log: Seq<EntryModel>, prev: int, es: Seq<EntryModel>, k: int) -> bool {
    prev + k < log.len() && log[prev + k].0 == es[k].0
}

/// The first offered entry, searching from `k`, that the log does not already hold.
pub open spec fn divergence_from(log: Seq<EntryModel>, prev: int, es: Seq<EntryModel>, k: int) -> int
    decreases es.len() - k,
{
    if k >= es.len() {
        es.len() as int
    } else if !agrees_at(log, prev, es, k) {
        k
    } else {
        divergence_from(log, prev, es, k + 1)
    }
}

/// The log after taking `es` placed right after position `prev`: entries already held
/// with the same term stay; from the first disagreeing or missing one on, the log's
/// suffix is discarded and the remaining offered entries are appended.
pub open spec fn merged(log: Seq<EntryModel>, prev: int, es: Seq<EntryModel>) -> Seq<EntryModel> {
    let c = divergence_from(log, prev, es, 0);
    if c == es.len() {
        log
    } else {
        log.subrange(0, prev + c) + es.subrange(c, es.len() as int)
    }
}

pub proof fn lemma_divergence_bounds(log: Seq<EntryModel>, prev: int, es: Seq<EntryModel>, k: int)
    requires
        0 <= k <= es.len(),
    ensures
        k <= divergence_from(log, prev, es, k) <= es.len(),
        forall|j: int| k <= j < divergence_from(log, prev, es, k) ==> agrees_at(log, prev, es, j),
        divergence_from(log, prev, es, k) < es.len() ==> !agrees_at(
            log,
            prev,
            es,
            divergence_from(log, prev, es, k),
        ),
    decreases es.len() - k,
{
    if k < es.len() && agrees_at(log, prev, es, k) {
        lemma_divergence_bounds(log, prev, es, k + 1);
    }
}

/// The ordered, index-addressed sequence of entries kept by a node.
#[derive(Clone, Debug, PartialEq)]
pub struct RaftLog {
    inner: Vec<LogEntry>,
}

impl View for RaftLog {
    type V = Seq<EntryModel>;

    closed spec fn view(&self) -> Seq<EntryModel> {
        entries_model(self.inner@)
    }
}

impl RaftLog {
    /// Every stored entry sits at the position it names, and the length fits an index.
    pub closed spec fn wf(&self) -> bool {
        &&& indexed_from(self.inner@, 1)
        &&& self.inner@.len() < u64::MAX
    }

    /// The empty log.
    pub fn new() -> (r: RaftLog)
        ensures
            r.wf(),
            r@ == Seq::<EntryModel>::empty(),
    {
        let r = RaftLog { inner: Vec::new() };
        assert(r@ =~= Seq::<EntryModel>::empty());
        r
    }

    /// A deep copy of the log.
    pub fn copy(&self) -> (r: RaftLog)
        requires
            self.wf(),
        ensures
            r.wf(),
            r@ == self@,
    {
        let mut v: Vec<LogEntry> = Vec::with_capacity(self.inner.len());
        let mut i: usize = 0;
        while i < self.inner.len()
            invariant
                self.wf(),
                i <= self.inner@.len(),
                v@.len() == i,
                indexed_from(v@, 1),
                forall|k: int| 0 <= k < i ==> #[trigger] v@[k]@ == self.inner@[k]@,
            decreases self.inner.len() - i,
        {
            let e = self.inner[i].copy();
            v.push(e);
            i += 1;
        }
        let r = RaftLog { inner: v };
        assert(r@ =~= self@);
        r
    }

    /// Index of the last entry (0 for the empty log).
    pub fn last_index(&self) -> (r: u64)
        requires
            self.wf(),
        ensures
            r == self@.len(),
            r < u64::MAX,
    {
        self.inner.len() as u64
    }

    /// Term of the last entry (0 for the empty log).
    pub fn last_term(&self) -> (r: u64)
        requires
            self.wf(),
        ensures
            r == last_term_of(self@),
    {
        if self.inner.len() == 0 {
            0
        } else {
            self.inner[self.inner.len() - 1].term
        }
    }

    /// Index and term of the last entry.
    pub fn last_index_term(&self) -> (r: (u64, u64))
        requires
            self.wf(),
        ensures
            r.0 == self@.len(),
            r.1 == last_term_of(self@),
    {
        (self.last_index(), self.last_term())
    }

    /// Term of the entry at `index`, if the log holds one there.
    pub fn term_at(&self, index: u64) -> (r: Option<u64>)
        requires
            self.wf(),
        ensures
            r == term_at(self@, index as int),
    {
        if 1 <= index && index <= self.inner.len() as u64 {
            Some(self.inner[(index - 1) as usize].term)
        } else {
            None
        }
    }

    /// The entry at `index`, if the log holds one there.
    pub fn entry_at(&self, index: u64) -> (r: Option<LogEntry>)
        requires
            self.wf(),
        ensures
            r.is_some() <==> 1 <= index <= self@.len(),
            r.is_some() ==> r.unwrap()@ == self@[index - 1] && r.unwrap().index == index,
    {
        if 1 <= index && index <= self.inner.len() as u64 {
            Some(self.inner[(index - 1) as usize].copy())
        } else {
            None
        }
    }

    /// Appends one entry created in `term`; returns its index.
    pub fn append(&mut self, term: u64, data: Vec<u8>) -> (r: u64)
        requires
            old(self).wf(),
            old(self)@.len() + 1 < u64::MAX,
        ensures
            final(self).wf(),
            final(self)@ == old(self)@.push((term, data@)),
            r == final(self)@.len(),
    {
        let index = self.inner.len() as u64 + 1;
        self.inner.push(LogEntry { term, index, data });
        assert(self@ =~= old(self)@.push((term, data@)));
        index
    }

    /// Drops the entry at `index` and every later one.
    pub fn truncate_from(&mut self, index: u64)
        requires
            old(self).wf(),
            index >= 1,
        ensures
            final(self).wf(),
            final(self)@ == truncated(old(self)@, index as int),
    {
        if index - 1 < self.inner.len() as u64 {
            self.inner.truncate((index - 1) as usize);
            assert(self@ =~= old(self)@.subrange(0, index - 1));
        }
    }

    /// Copies of the entries from `index` to the end, each carrying its position.
    pub fn entries_from(&self, index: u64) -> (r: Vec<LogEntry>)
        requires
            self.wf(),
            index >= 1,
        ensures
            entries_model(r@) == suffix_from(self@, index as int),
            indexed_from(r@, index as int),
    {
        let mut v: Vec<LogEntry> = Vec::new();
        let mut i: usize = (index - 1) as usize;
        if index - 1 >= self.inner.len() as u64 {
            assert(entries_model(v@) =~= suffix_from(self@, index as int));
            return v;
        }
        while i < self.inner.len()
            invariant
                self.wf(),
                index - 1 <= i <= self.inner@.len(),
                v@.len() == i - (index - 1),
                indexed_from(v@, index as int),
                forall|k: int| 0 <= k < v@.len() ==> #[trigger] v@[k]@ == self.inner@[index - 1 + k]@,
            decreases self.inner.len() - i,
        {
            let e = self.inner[i].copy();
            v.push(e);
            i += 1;
        }
        assert(entries_model(v@) =~= suffix_from(self@, index as int));
        v
    }

    /// Whether both logs hold the same entries.
    pub fn same_entries(&self, other: &RaftLog) -> (r: bool)
        requires
            self.wf(),
            other.wf(),
        ensures
            r == (self@ == other@),
    {
        if self.inner.len() != other.inner.len() {
            proof {
                assert(self@.len() != other@.len());
            }
            return false;
        }
        let mut i: usize = 0;
        while i < self.inner.len()
            invariant
                i <= self.inner@.len(),
                self.inner@.len() == other.inner@.len(),
                forall|k: int| 0 <= k < i ==> #[trigger] self.inner@[k]@ == other.inner@[k]@,
            decreases self.inner.len() - i,
        {
            let a = &self.inner[i];
            let b = &other.inner[i];
            if a.term != b.term || !bytes_equal(a.data.as_slice(), b.data.as_slice()) {
                proof {
                    assert(self@[i as int] != other@[i as int]);
                }
                return false;
            }
            i += 1;
        }
        proof {
            assert(self@ =~= other@);
        }
        true
    }

    /// The first of the entries `es` offered after position `prev` that the log does not
    /// already hold with the same term (`es.len()` if it holds them all).
    pub fn divergence(&self, prev: u64, es: &Vec<LogEntry>) -> (r: u64)
        requires
            self.wf(),
            prev <= self@.len(),
            prev + es@.len() + 1 < u64::MAX,
        ensures
            r == divergence_from(self@, prev as int, entries_model(es@), 0),
    {
        let ghost em = entries_model(es@);
        let mut c: usize = 0;
        while c < es.len() && prev + (c as u64) < self.inner.len() as u64
            && self.inner[(prev + c as u64) as usize].term == es[c].term
            invariant
                self.wf(),
                em == entries_model(es@),
                prev <= self@.len(),
                prev + es@.len() + 1 < u64::MAX,
                c <= es@.len(),
                prev + c <= self@.len(),
                forall|j: int| 0 <= j < c ==> agrees_at(self@, prev as int, em, j),
            decreases es.len() - c,
        {
            c += 1;
        }
        proof {
            lemma_divergence_bounds(self@, prev as int, em, 0);
            let d = divergence_from(self@, prev as int, em, 0);
            if c < es@.len() {
                assert(!agrees_at(self@, prev as int, em, c as int));
            }
            if d < c {
                assert(agrees_at(self@, prev as int, em, d));
            }
            if c < d {
                assert(agrees_at(self@, prev as int, em, c as int));
            }
        }
        c as u64
    }

    /// Takes the entries `es` offered right after position `prev`: keeps those already held
    /// with the same term, discards the log's suffix from the first that disagrees, and
    /// appends the rest at their own positions.
    pub fn merge_entries(&mut self, prev: u64, es: &Vec<LogEntry>)
        requires
            old(self).wf(),
            prev <= old(self)@.len(),
            prev + es@.len() + 1 < u64::MAX,
        ensures
            final(self).wf(),
            final(self)@ == merged(old(self)@, prev as int, entries_model(es@)),
    {
        let ghost log0 = self@;
        let ghost em = entries_model(es@);
        let mut c: usize = 0;
        while c < es.len() && prev + (c as u64) < self.inner.len() as u64
            && self.inner[(prev + c as u64) as usize].term == es[c].term
            invariant
                self.wf(),
                self@ == log0,
                em == entries_model(es@),
                prev <= log0.len(),
                prev + es@.len() + 1 < u64::MAX,
                c <= es@.len(),
                prev + c <= log0.len(),
                forall|j: int| 0 <= j < c ==> agrees_at(log0, prev as int, em, j),
            decreases es.len() - c,
        {
            c += 1;
        }
        proof {
            lemma_divergence_bounds(log0, prev as int, em, 0);
            let d = divergence_from(log0, prev as int, em, 0);
            if c < es@.len() {
                assert(!agrees_at(log0, prev as int, em, c as int));
            }
            if d < c {
                assert(agrees_at(log0, prev as int, em, d));
            }
            if c < d {
                assert(agrees_at(log0, prev as int, em, c as int));
            }
            assert(d == c);
        }
        if c == es.len() {
            return;
        }
        self.truncate_from(prev + c as u64 + 1);
        assert(self@ == log0.subrange(0, prev + c));
        let mut k: usize = c;
        while k < es.len()
            invariant
                self.wf(),
                c <= k <= es@.len(),
                prev + c <= log0.len(),
                self@.len() == prev + k,
                prev + es@.len() + 1 < u64::MAX,
                em == entries_model(es@),
                self@ == log0.subrange(0, prev + c) + em.subrange(c as int, k as int),
            decreases es.len() - k,
        {
            let data = copy_bytes(es[k].data.as_slice());
            self.append(es[k].term, data);
            assert(self@ =~= log0.subrange(0, prev + c) + em.subrange(c as int, k + 1));
            k += 1;
        }
    }
}

} // verus!
