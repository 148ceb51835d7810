//! Round-trip latency bookkeeping for the once-per-second ping probe.
//!
//! The caller supplies the clock readings (in milliseconds), so the
//! arithmetic here is exact: a ping id is issued and recorded with its
//! send time, and answering it yields the elapsed time and forgets it.

use vstd::prelude::*;

verus! {

/// Outstanding pings: each issued id with the time it was sent.
pub struct PingStore {
    pub next_id: u64,
    pub sent_times: Vec<(u64, u64)>,
}

/// Index of the entry for `id`, or -1.
pub open spec fn find_ping(s: Seq<(u64, u64)>, id: u64, i: int) -> int
    decreases s.len() - i,
{
    if i < 0 || i >= s.len() {
        -1
    } else if s[i].0 == id {
        i
    } else {
        find_ping(s, id, i + 1)
    }
}

proof fn lemma_find_ping(s: Seq<(u64, u64)>, id: u64, i: int)
    requires
        0 <= i <= s.len(),
    ensures
        find_ping(s, id, i) == -1 ==> forall|j: int| i <= j < s.len() ==> s[j].0 != id,
        find_ping(s, id, i) != -1 ==> i <= find_ping(s, id, i) < s.len() && s[find_ping(
            s,
            id,
            i,
        )].0 == id,
    decreases s.len() - i,
{
    if i < s.len() {
        lemma_find_ping(s, id, i + 1);
    }
}

impl PingStore {
    /// Every outstanding id was issued, so it is below the counter.
    pub open spec fn wf(&self) -> bool {
        forall|i: int|
            0 <= i < self.sent_times@.len() ==> (#[trigger] self.sent_times@[i]).0 < self.next_id
    }

    pub fn new() -> (s: PingStore)
        ensures
            s.next_id == 0,
            s.sent_times@ == Seq::<(u64, u64)>::empty(),
            s.wf(),
    {
        let s = PingStore { next_id: 0, sent_times: Vec::new() };
        proof {
            assert(s.sent_times@ =~= Seq::<(u64, u64)>::empty());
        }
        s
    }

    /// Issue the next ping id; ids are never reused.
    pub fn next_id(&mut self) -> (r: u64)
        requires
            old(self).next_id < u64::MAX,
        ensures
            r == old(self).next_id,
            final(self).next_id == old(self).next_id + 1,
            final(self).sent_times == old(self).sent_times,
            old(self).wf() ==> final(self).wf(),
    {
        let t = self.next_id;
        self.next_id = self.next_id + 1;
        t
    }

    /// Issue a ping id and remember when it left.
    pub fn start_ping(&mut self, now_ms: u64) -> (r: u64)
        requires
            old(self).wf(),
            old(self).next_id < u64::MAX,
        ensures
            r == old(self).next_id,
            final(self).next_id == old(self).next_id + 1,
            final(self).sent_times@ == old(self).sent_times@.push((r, now_ms)),
            final(self).wf(),
    {
        let id = self.next_id();
        self.sent_times.push((id, now_ms));
        id
    }

    /// Answer a ping: the elapsed milliseconds since it was sent, and the
    /// entry is forgotten; an unknown id yields nothing. A clock reading
    /// earlier than the send time counts as zero elapsed.
    pub fn end_ping(&mut self, id: u64, now_ms: u64) -> (r: Option<u64>)
        requires
            old(self).wf(),
        ensures
            ({
                let s = old(self).sent_times@;
                let i = find_ping(s, id, 0);
                if i >= 0 {
                    &&& r == Some(
                        (if now_ms >= s[i].1 {
                            now_ms - s[i].1
                        } else {
                            0
                        }) as u64,
                    )
                    &&& final(self).sent_times@ == s.remove(i)
                } else {
                    &&& r is None
                    &&& final(self).sent_times@ == s
                }
            }),
            final(self).next_id == old(self).next_id,
            final(self).wf(),
    {
        proof {
            lemma_find_ping(self.sent_times@, id, 0);
        }
        let n = self.sent_times.len();
        let mut i: usize = 0;
        while i < n
            invariant
                i <= n,
                n == self.sent_times@.len(),
                self.next_id == old(self).next_id,
                self.sent_times@ == old(self).sent_times@,
                self.wf(),
                find_ping(self.sent_times@, id, 0) == find_ping(self.sent_times@, id, i as int),
            decreases n - i,
        {
            if self.sent_times[i].0 == id {
                let ghost s = old(self).sent_times@;
                let sent = self.sent_times[i].1;
                self.sent_times.remove(i);
                let elapsed: u64 = if now_ms >= sent {
                    now_ms - sent
                } else {
                    0
                };
                proof {
                    assert(find_ping(s, id, 0) == i as int);
                    assert(forall|j: int|
                        0 <= j < s.remove(i as int).len() ==> (#[trigger] s.remove(i as int)[j])
                            == (if j < i as int {
                            s[j]
                        } else {
                            s[j + 1]
                        }));
                }
                return Some(elapsed);
            }
            i = i + 1;
        }
        None
    }
}

} // verus!
