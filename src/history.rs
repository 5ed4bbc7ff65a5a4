//! The append-only log of numbered envelopes.
use vstd::prelude::*;

use crate::protocol::{Body, MessageV2};

verus! {

/// The model of a history: its first and next sequence numbers and its entries.
pub struct HistoryM {
    pub start: u64,
    pub next: u64,
    pub entries: Seq<MessageV2>,
}

/// Entry `i` carries number `start + i`, and the entries run up to `next`.
pub open spec fn history_wf(h: HistoryM) -> bool {
    &&& h.start <= h.next
    &&& h.entries.len() == h.next - h.start
    &&& forall|i: int| 0 <= i < h.entries.len() ==> (#[trigger] h.entries[i]).seq == h.start + i
}

/// In a well-formed history the numbers of the entries, in order, start at
/// `start` and each is one more than the one before.
pub proof fn lemma_history_monotone(h: HistoryM)
    requires
        history_wf(h),
    ensures
        h.entries.len() > 0 ==> h.entries[0].seq == h.start,
        forall|i: int| 0 <= i < h.entries.len() - 1 ==> (#[trigger] h.entries[i + 1]).seq == h.entries[i].seq + 1,
        forall|i: int, j: int| 0 <= i < j < h.entries.len() ==> (#[trigger] h.entries[i]).seq < (#[trigger] h.entries[j]).seq,
{
    assert forall|i: int| 0 <= i < h.entries.len() - 1 implies (#[trigger] h.entries[i + 1]).seq == h.entries[i].seq + 1 by {
        assert(h.entries[i].seq == h.start + i);
        assert(h.entries[i + 1].seq == h.start + i + 1);
    }
    assert forall|i: int, j: int| 0 <= i < j < h.entries.len() implies (#[trigger] h.entries[i]).seq < (#[trigger] h.entries[j]).seq by {
        assert(h.entries[i].seq == h.start + i);
        assert(h.entries[j].seq == h.start + j);
    }
}

/// The ordered log of envelopes, numbered without gaps from `start`.
pub struct History {
    inner: Vec<MessageV2>,
    start: u64,
    seq: u64,
}

/// Walks the entries of a history in order.
pub struct HistoryIter<'a> {
    data: &'a History,
    index: usize,
}

impl View for History {
    type V = HistoryM;

    closed spec fn view(&self) -> HistoryM {
        HistoryM { start: self.start, next: self.seq, entries: self.inner@ }
    }
}

impl History {
    pub open spec fn wf(&self) -> bool {
        history_wf(self@)
    }

    pub fn new() -> (r: History)
        ensures
            r@ == (HistoryM { start: 0, next: 0, entries: Seq::empty() }),
            r.wf(),
    {
        History { inner: Vec::new(), start: 0, seq: 0 }
    }

    pub fn iter(&self) -> (r: HistoryIter<'_>)
        ensures
            r.history() == self,
            r.position() == 0,
    {
        HistoryIter { data: self, index: 0 }
    }

    /// An empty history that continues this one: it starts where this one ends.
    pub fn get_frame(&self) -> (r: History)
        requires
            self.wf(),
        ensures
            r@ == (HistoryM { start: self@.next, next: self@.next, entries: Seq::empty() }),
            r.wf(),
    {
        History { inner: Vec::new(), start: self.seq, seq: self.seq }
    }

    /// The number the next appended message will carry.
    pub fn next_seq(&self) -> (r: u64)
        ensures
            r == self@.next,
    {
        self.seq
    }

    /// Appends a body under the next sequence number and returns that number.
    pub fn state_message(&mut self, m: Body) -> (r: u64)
        requires
            old(self).wf(),
            old(self)@.next < u64::MAX,
        ensures
            final(self).wf(),
            r == old(self)@.next,
            final(self)@ == (HistoryM {
                start: old(self)@.start,
                next: (old(self)@.next + 1) as u64,
                entries: old(self)@.entries.push(MessageV2 { seq: r, data: m }),
            }),
    {
        let s = self.seq;
        self.seq = self.seq + 1;
        self.inner.push(MessageV2 { seq: s, data: m });
        s
    }

    /// Appends a body under the next sequence number.
    pub fn push(&mut self, m: Body)
        requires
            old(self).wf(),
            old(self)@.next < u64::MAX,
        ensures
            final(self).wf(),
            final(self)@ == (HistoryM {
                start: old(self)@.start,
                next: (old(self)@.next + 1) as u64,
                entries: old(self)@.entries.push(MessageV2 { seq: old(self)@.next, data: m }),
            }),
    {
        self.state_message(m);
    }

    /// The envelope numbered `seq`, if this history holds it.
    pub fn get_message(&self, seq: u64) -> (r: Option<&MessageV2>)
        requires
            self.wf(),
        ensures
            (seq < self@.start || seq >= self@.next) <==> r is None,
            r matches Some(m) ==> *m == self@.entries[seq - self@.start],
    {
        if seq < self.start || seq >= self.seq {
            return None;
        }
        let n = self.inner.len();
        assert(seq - self.start < n);
        let i = (seq - self.start) as usize;
        assert(i as int == seq - self@.start);
        Some(&self.inner[i])
    }

    /// The entry at position `i`.
    pub fn get(&self, i: usize) -> (r: &MessageV2)
        requires
            i < self@.entries.len(),
        ensures
            *r == self@.entries[i as int],
    {
        &self.inner[i]
    }

    /// Removes the entry numbered `seq`; the later entries move down one
    /// number, so the history stays without gaps. Says whether it was there.
    pub fn remove_message(&mut self, seq: u64) -> (r: bool)
        requires
            old(self).wf(),
        ensures
            final(self).wf(),
            r == (old(self)@.start <= seq < old(self)@.next),
            !r ==> final(self)@ == old(self)@,
            r ==> {
                let k = seq - old(self)@.start;
                let o = old(self)@.entries;
                &&& final(self)@.start == old(self)@.start
                &&& final(self)@.next == old(self)@.next - 1
                &&& final(self)@.entries.len() == o.len() - 1
                &&& forall|i: int| 0 <= i < k ==> #[trigger] final(self)@.entries[i] == o[i]
                &&& forall|i: int| k <= i < o.len() - 1 ==> #[trigger] final(self)@.entries[i] == (MessageV2 {
                    seq: (o[i + 1].seq - 1) as u64,
                    data: o[i + 1].data,
                })
            },
    {
        if seq < self.start || seq >= self.seq {
            return false;
        }
        let ghost o = self.inner@;
        let ghost h = self@;
        let n = self.inner.len();
        let k = (seq - self.start) as usize;
        self.inner.remove(k);
        let mut j = k;
        while j < n - 1
            invariant
                o.len() == n,
                h == old(self)@,
                self.start == h.start,
                self.seq == h.next,
                n == h.next - h.start,
                k <= j <= n - 1,
                self.inner@.len() == n - 1,
                forall|i: int| 0 <= i < o.len() ==> (#[trigger] o[i]).seq == self.start + i,
                forall|i: int| 0 <= i < k ==> #[trigger] self.inner@[i] == o[i],
                forall|i: int| k <= i < j ==> #[trigger] self.inner@[i] == (MessageV2 {
                    seq: (o[i + 1].seq - 1) as u64,
                    data: o[i + 1].data,
                }),
                forall|i: int| j <= i < n - 1 ==> #[trigger] self.inner@[i] == o[i + 1],
            decreases n - 1 - j,
        {
            let mut m = self.inner.remove(j);
            assert(m == o[j + 1]);
            m.seq = m.seq - 1;
            self.inner.insert(j, m);
            j += 1;
        }
        self.seq = self.seq - 1;
        true
    }

    /// Appends a history that starts where this one ends.
    pub fn merge(&mut self, to_merge: History)
        requires
            old(self).wf(),
            to_merge.wf(),
            old(self)@.next == to_merge@.start,
        ensures
            final(self).wf(),
            final(self)@ == (HistoryM {
                start: old(self)@.start,
                next: to_merge@.next,
                entries: old(self)@.entries + to_merge@.entries,
            }),
    {
        let mut other = to_merge;
        self.inner.append(&mut other.inner);
        self.seq = other.seq;
        proof {
            let h = self@;
            assert forall|i: int| 0 <= i < h.entries.len() implies (#[trigger] h.entries[i]).seq
                == h.start + i by {
                if i >= old(self)@.entries.len() {
                    assert(h.entries[i] == to_merge@.entries[i - old(self)@.entries.len()]);
                }
            }
        }
    }

    pub fn len(&self) -> (r: usize)
        ensures
            r == self@.entries.len(),
    {
        self.inner.len()
    }

    pub fn is_empty(&self) -> (r: bool)
        ensures
            r == (self@.entries.len() == 0),
    {
        self.inner.len() == 0
    }
}

impl Default for History {
    fn default() -> (r: History)
        ensures
            r@ == (HistoryM { start: 0, next: 0, entries: Seq::empty() }),
            r.wf(),
    {
        History::new()
    }
}

impl<'a> HistoryIter<'a> {
    pub closed spec fn history(&self) -> &'a History {
        self.data
    }

    pub closed spec fn position(&self) -> int {
        self.index as int
    }

    /// The next entry, or `None` once all have been walked.
    pub fn next(&mut self) -> (r: Option<&'a MessageV2>)
        ensures
            final(self).history() == old(self).history(),
            old(self).position() < old(self).history()@.entries.len() ==> {
                &&& r == Some(&old(self).history()@.entries[old(self).position()])
                &&& final(self).position() == old(self).position() + 1
            },
            old(self).position() >= old(self).history()@.entries.len() ==> {
                &&& r is None
                &&& final(self).position() == old(self).position()
            },
    {
        if self.index < self.data.inner.len() {
            let o = &self.data.inner[self.index];
            self.index = self.index + 1;
            Some(o)
        } else {
            None
        }
    }
}

} // verus!
