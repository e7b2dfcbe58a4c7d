//! Per-vhost and per-backend request counters.
//!
//! Counters saturate instead of wrapping; timestamps are unix seconds
//! supplied by the caller, so the logic stays a pure function of its inputs.

use vstd::prelude::*;
use vstd::string::*;
use crate::strutil::str_eq;

verus! {

/// Count recorded for `k`, zero when absent.
pub open spec fn sel_count(s: Seq<(String, u64)>, k: Seq<char>) -> int
    decreases s.len(),
{
    if s.len() == 0 {
        0int
    } else if s[0].0@ == k {
        s[0].1 as int
    } else {
        sel_count(s.skip(1), k)
    }
}

/// Statistics for a single vhost director.
#[derive(Debug)]
pub struct VhostStats {
    /// Number of backend selections per backend key.
    pub backend_selections: Vec<(String, u64)>,
    /// Total requests handled by this vhost.
    pub total_requests: u64,
    /// Unix-seconds timestamp of the last request.
    pub last_request: Option<u64>,
}

impl VhostStats {
    /// Keys are pairwise distinct.
    pub open spec fn wf(&self) -> bool {
        forall|i: int, j: int|
            0 <= i < j < self.backend_selections@.len() ==> (
            #[trigger] self.backend_selections@[i]).0@ != (
            #[trigger] self.backend_selections@[j]).0@
    }

    /// Create new empty stats.
    pub fn new() -> (r: VhostStats)
        ensures
            r.total_requests == 0,
            r.last_request is None,
            r.backend_selections@.len() == 0,
            r.wf(),
    {
        VhostStats { backend_selections: Vec::new(), total_requests: 0, last_request: None }
    }

    /// Record a request and a backend selection at time `now`. The total and
    /// the per-key counter each go up by one (saturating); other keys keep
    /// their counts.
    #[verifier::loop_isolation(false)]
    pub fn record_request(&mut self, backend_key: &str, now: u64)
        requires
            old(self).wf(),
        ensures
            final(self).wf(),
            final(self).total_requests == (if old(self).total_requests < u64::MAX {
                old(self).total_requests + 1
            } else {
                u64::MAX as int
            }),
            final(self).last_request == Some(now),
            old(self).total_requests < u64::MAX && sel_count(
                old(self).backend_selections@,
                backend_key@,
            ) < u64::MAX ==> sel_count(final(self).backend_selections@, backend_key@) == sel_count(
                old(self).backend_selections@,
                backend_key@,
            ) + 1,
            forall|k: Seq<char>|
                k != backend_key@ ==> sel_count(final(self).backend_selections@, k) == sel_count(
                    old(self).backend_selections@,
                    k,
                ),
    {
        if self.total_requests < u64::MAX {
            self.total_requests = self.total_requests + 1;
        }
        self.last_request = Some(now);
        let n = self.backend_selections.len();
        let mut i: usize = 0;
        while i < n
            invariant
                i <= n,
                self.backend_selections == old(self).backend_selections,
                self.total_requests == (if old(self).total_requests < u64::MAX {
                    old(self).total_requests + 1
                } else {
                    u64::MAX as int
                }),
                self.last_request == Some(now),
                n == old(self).backend_selections@.len(),
                forall|j: int|
                    0 <= j < i ==> (#[trigger] old(self).backend_selections@[j]).0@
                        != backend_key@,
        decreases n - i,
        {
            if str_eq(self.backend_selections[i].0.as_str(), backend_key) {
                let count = self.backend_selections[i].1;
                let bumped = if count < u64::MAX {
                    count + 1
                } else {
                    count
                };
                let keep = self.backend_selections[i].0.clone();
                self.backend_selections.set(i, (keep, bumped));
                proof {
                    lemma_sel_count_at(old(self).backend_selections@, i as int, backend_key@);
                    lemma_sel_count_at(self.backend_selections@, i as int, backend_key@);
                    assert forall|k: Seq<char>|
                        k != backend_key@ implies sel_count(
                        self.backend_selections@,
                        k,
                    ) == sel_count(old(self).backend_selections@, k) by {
                        lemma_sel_count_same(
                            old(self).backend_selections@,
                            self.backend_selections@,
                            i as int,
                            k,
                        );
                    }
                }
                return ;
            }
            i += 1;
        }
        self.backend_selections.push((String::from_str(backend_key), 1));
        proof {
            assert(self.backend_selections@.len() == old(self).backend_selections@.len() + 1);
            assert(forall|j: int|
                0 <= j < old(self).backend_selections@.len()
                    ==> #[trigger] self.backend_selections@[j] == old(
                    self,
                ).backend_selections@[j]);
            lemma_sel_count_at(self.backend_selections@, n as int, backend_key@);
            assert forall|k: Seq<char>|
                k != backend_key@ implies sel_count(self.backend_selections@, k) == sel_count(
                old(self).backend_selections@,
                k,
            ) by {
                lemma_sel_count_push_other(old(self).backend_selections@, self.backend_selections@, k);
            }
            lemma_sel_count_absent(old(self).backend_selections@, backend_key@);
        }
    }

    /// Total requests handled.
    pub fn total_requests(&self) -> (r: u64)
        ensures
            r == self.total_requests,
    {
        self.total_requests
    }

    /// Per-backend selection counts.
    pub fn backend_selections(&self) -> (r: &Vec<(String, u64)>)
        ensures
            r == &self.backend_selections,
    {
        &self.backend_selections
    }

    /// Time of the last request, unix seconds.
    pub fn last_request(&self) -> (r: Option<u64>)
        ensures
            r == self.last_request,
    {
        self.last_request
    }
}

/// When the key first occurs at `i`, the count is the entry there.
proof fn lemma_sel_count_at(s: Seq<(String, u64)>, i: int, k: Seq<char>)
    requires
        0 <= i < s.len(),
        s[i].0@ == k,
        forall|j: int| 0 <= j < i ==> (#[trigger] s[j]).0@ != k,
    ensures
        sel_count(s, k) == s[i].1 as int,
    decreases i,
{
    if i == 0 {
    } else {
        assert(forall|j: int| 0 <= j < s.skip(1).len() ==> #[trigger] s.skip(1)[j] == s[j + 1]);
        lemma_sel_count_at(s.skip(1), i - 1, k);
    }
}

/// Changing an entry of another key leaves a key's count unchanged.
proof fn lemma_sel_count_same(s1: Seq<(String, u64)>, s2: Seq<(String, u64)>, i: int, k: Seq<char>)
    requires
        s1.len() == s2.len(),
        0 <= i < s1.len(),
        forall|j: int| 0 <= j < s1.len() && j != i ==> #[trigger] s2[j] == s1[j],
        s1[i].0@ != k,
        s2[i].0@ != k,
    ensures
        sel_count(s2, k) == sel_count(s1, k),
    decreases s1.len(),
{
    if s1.len() == 0 {
    } else if i == 0 {
        assert(forall|j: int| 0 <= j < s1.skip(1).len() ==> #[trigger] s1.skip(1)[j] == s1[j + 1]);
        assert(s1.skip(1) =~= s2.skip(1));
    } else {
        assert(s2[0] == s1[0]);
        assert(forall|j: int| 0 <= j < s1.skip(1).len() ==> #[trigger] s1.skip(1)[j] == s1[j + 1]);
        assert(forall|j: int| 0 <= j < s2.skip(1).len() ==> #[trigger] s2.skip(1)[j] == s2[j + 1]);
        lemma_sel_count_same(s1.skip(1), s2.skip(1), i - 1, k);
    }
}

/// Appending an entry for another key leaves a key's count unchanged.
proof fn lemma_sel_count_push_other(s1: Seq<(String, u64)>, s2: Seq<(String, u64)>, k: Seq<char>)
    requires
        s2.len() == s1.len() + 1,
        forall|j: int| 0 <= j < s1.len() ==> #[trigger] s2[j] == s1[j],
        s2[s2.len() - 1].0@ != k,
    ensures
        sel_count(s2, k) == sel_count(s1, k),
    decreases s1.len(),
{
    if s1.len() == 0 {
        assert(s2.skip(1) =~= Seq::<(String, u64)>::empty());
        assert(sel_count(Seq::<(String, u64)>::empty(), k) == 0);
    } else {
        assert(s2[0] == s1[0]);
        assert(forall|j: int| 0 <= j < s1.skip(1).len() ==> #[trigger] s1.skip(1)[j] == s1[j + 1]);
        assert(forall|j: int| 0 <= j < s2.skip(1).len() ==> #[trigger] s2.skip(1)[j] == s2[j + 1]);
        assert(s2.skip(1)[s2.skip(1).len() - 1] == s2[s2.len() - 1]);
        lemma_sel_count_push_other(s1.skip(1), s2.skip(1), k);
    }
}

/// A key no entry holds counts zero.
proof fn lemma_sel_count_absent(s: Seq<(String, u64)>, k: Seq<char>)
    requires
        forall|j: int| 0 <= j < s.len() ==> (#[trigger] s[j]).0@ != k,
    ensures
        sel_count(s, k) == 0,
    decreases s.len(),
{
    if s.len() > 0 {
        assert(forall|j: int| 0 <= j < s.skip(1).len() ==> #[trigger] s.skip(1)[j] == s[j + 1]);
        lemma_sel_count_absent(s.skip(1), k);
    }
}

/// Statistics for a single backend.
#[derive(Debug)]
pub struct BackendStats {
    /// Number of times this backend was selected.
    pub selections: u64,
    /// Unix-seconds timestamp of the last selection.
    pub last_selected: Option<u64>,
}

impl BackendStats {
    /// Create new empty stats.
    pub fn new() -> (r: BackendStats)
        ensures
            r.selections == 0,
            r.last_selected is None,
    {
        BackendStats { selections: 0, last_selected: None }
    }

    /// Record a selection at time `now`.
    pub fn record_selection(&mut self, now: u64)
        ensures
            final(self).selections == (if old(self).selections < u64::MAX {
                old(self).selections + 1
            } else {
                u64::MAX as int
            }),
            final(self).last_selected == Some(now),
    {
        if self.selections < u64::MAX {
            self.selections = self.selections + 1;
        }
        self.last_selected = Some(now);
    }

    /// Total selections.
    pub fn selections(&self) -> (r: u64)
        ensures
            r == self.selections,
    {
        self.selections
    }

    /// Time of the last selection, unix seconds.
    pub fn last_selected(&self) -> (r: Option<u64>)
        ensures
            r == self.last_selected,
    {
        self.last_selected
    }
}

} // verus!
