//! Content-addressed pool of upstream backend handles, keyed `address:port`.
//!
//! A pool entry pairs its key with an opaque numeric handle; the embedding
//! host maps handles to its native backend objects. Entries are created on
//! first reference, shared across reloads, and dropped by `retain_only`
//! when a reload no longer references them.

use vstd::prelude::*;
use vstd::string::*;
use crate::strutil::{dec_str, fmt_u64, push_char, str_eq};

verus! {

/// The pool key for an address and port: `address:port`. IPv6 addresses
/// serialize as literal text; the key is an opaque handle to consumers.
pub open spec fn key_of(address: Seq<char>, port: u16) -> Seq<char> {
    address + seq![':'] + dec_str(port as nat)
}

/// Whether `k` occurs among the views of `keys`.
pub open spec fn key_listed(keys: Seq<String>, k: Seq<char>) -> bool {
    exists|i: int| 0 <= i < keys.len() && (#[trigger] keys[i])@ == k
}

#[derive(Debug)]
pub struct BackendPool {
    pub entries: Vec<(String, u64)>,
    pub next_handle: u64,
}

impl BackendPool {
    /// Keys are pairwise distinct.
    pub open spec fn wf(&self) -> bool {
        forall|i: int, j: int|
            0 <= i < j < self.entries@.len() ==> (#[trigger] self.entries@[i]).0@
                != (#[trigger] self.entries@[j]).0@
    }

    /// The entries, by view: key text paired with its handle.
    pub open spec fn entries_view(&self) -> Seq<(Seq<char>, u64)> {
        self.entries@.map_values(|e: (String, u64)| (e.0@, e.1))
    }

    pub open spec fn has_key(&self, k: Seq<char>) -> bool {
        exists|i: int| 0 <= i < self.entries@.len() && (#[trigger] self.entries@[i]).0@ == k
    }

    /// The pool holds an entry pairing key `k` with handle `h`.
    pub open spec fn has_entry(&self, k: Seq<char>, h: u64) -> bool {
        exists|i: int|
            0 <= i < self.entries@.len() && (#[trigger] self.entries@[i]).0@ == k
                && self.entries@[i].1 == h
    }

    /// Create a new empty backend pool.
    pub fn new() -> (r: BackendPool)
        ensures
            r.entries_view() == Seq::<(Seq<char>, u64)>::empty(),
            r.entries@.len() == 0,
            r.wf(),
    {
        let r = BackendPool { entries: Vec::new(), next_handle: 0 };
        proof {
            assert(r.entries_view() =~= Seq::<(Seq<char>, u64)>::empty());
        }
        r
    }

    /// Number of entries in the pool.
    pub fn len(&self) -> (r: usize)
        ensures
            r == self.entries@.len(),
    {
        self.entries.len()
    }

    /// Whether the pool holds no entry.
    pub fn is_empty(&self) -> (r: bool)
        ensures
            r == (self.entries@.len() == 0),
    {
        self.entries.len() == 0
    }

    /// Get or create the entry for `address:port`, returning its key. An
    /// existing entry is left untouched; a new one is appended with the next
    /// fresh handle.
    #[verifier::loop_isolation(false)]
    pub fn get_or_create(&mut self, address: &str, port: u16) -> (key: String)
        requires
            old(self).wf(),
        ensures
            key@ == key_of(address@, port),
            final(self).wf(),
            final(self).has_key(key@),
            forall|k: Seq<char>| old(self).has_key(k) ==> final(self).has_key(k),
            forall|k: Seq<char>, h: u64|
                old(self).has_entry(k, h) ==> final(self).has_entry(k, h),
            old(self).has_key(key_of(address@, port)) ==> *final(self) == *old(self),
            !old(self).has_key(key_of(address@, port)) ==> final(self).entries_view() == old(
                self,
            ).entries_view().push((key_of(address@, port), old(self).next_handle)),
    {
        let mut key = String::from_str(address);
        push_char(&mut key, ':');
        let port_str = fmt_u64(port as u64);
        key.append(port_str.as_str());
        proof {
            assert(key@ =~= key_of(address@, port));
        }
        let n = self.entries.len();
        let mut i: usize = 0;
        while i < n
            invariant
                n == self.entries@.len(),
                i <= n,
                key@ == key_of(address@, port),
                forall|j: int| 0 <= j < i ==> (#[trigger] self.entries@[j]).0@ != key@,
            decreases n - i,
        {
            if str_eq(self.entries[i].0.as_str(), key.as_str()) {
                return key;
            }
            i += 1;
        }
        let handle = self.next_handle;
        let stored = key.clone();
        self.entries.push((stored, handle));
        if self.next_handle < u64::MAX {
            self.next_handle = self.next_handle + 1;
        }
        proof {
            assert(self.entries_view() =~= old(self).entries_view().push((
                key_of(address@, port),
                old(self).next_handle,
            )));
            assert forall|a: int, b: int| 0 <= a < b < self.entries@.len() implies (
            #[trigger] self.entries@[a]).0@ != (#[trigger] self.entries@[b]).0@ by {
                if b == self.entries@.len() - 1 {
                    assert(self.entries@[a] == old(self).entries@[a]);
                }
            }
            assert(self.entries@[self.entries@.len() - 1].0@ == key@);
            assert forall|k: Seq<char>| old(self).has_key(k) implies self.has_key(k) by {
                let w = choose|w: int|
                    0 <= w < old(self).entries@.len() && (#[trigger] old(self).entries@[w]).0@
                        == k;
                assert(self.entries@[w] == old(self).entries@[w]);
            }
            assert forall|k: Seq<char>, h: u64| old(self).has_entry(k, h) implies self.has_entry(
                k,
                h,
            ) by {
                let w = choose|w: int|
                    0 <= w < old(self).entries@.len() && (#[trigger] old(self).entries@[w]).0@ == k
                        && old(self).entries@[w].1 == h;
                assert(self.entries@[w] == old(self).entries@[w]);
            }
        }
        key
    }

    /// Look up a backend handle by key.
    pub fn get(&self, key: &str) -> (r: Option<u64>)
        ensures
            match r {
                Some(h) => exists|i: int|
                    0 <= i < self.entries@.len() && (#[trigger] self.entries@[i]).0@ == key@
                        && self.entries@[i].1 == h,
                None => !self.has_key(key@),
            },
    {
        let n = self.entries.len();
        let mut i: usize = 0;
        while i < n
            invariant
                n == self.entries@.len(),
                i <= n,
                forall|j: int| 0 <= j < i ==> (#[trigger] self.entries@[j]).0@ != key@,
            decreases n - i,
        {
            if str_eq(self.entries[i].0.as_str(), key) {
                return Some(self.entries[i].1);
            }
            i += 1;
        }
        None
    }

    /// Duplicate the pool: same entries, same handles, same counter.
    pub fn duplicate(&self) -> (r: BackendPool)
        ensures
            r.entries@ == self.entries@,
            r.next_handle == self.next_handle,
    {
        let n = self.entries.len();
        let mut entries: Vec<(String, u64)> = Vec::new();
        let mut i: usize = 0;
        while i < n
            invariant
                i <= n,
                n == self.entries@.len(),
                entries@ =~= self.entries@.subrange(0, i as int),
            decreases n - i,
        {
            entries.push((self.entries[i].0.clone(), self.entries[i].1));
            proof {
                assert(entries@ =~= self.entries@.subrange(0, i + 1));
            }
            i += 1;
        }
        proof {
            assert(self.entries@.subrange(0, n as int) =~= self.entries@);
        }
        BackendPool { entries, next_handle: self.next_handle }
    }

    /// Remove all entries whose key is not listed in `keys_to_keep`; kept
    /// entries keep their handles and their order. Afterwards the pool
    /// holds exactly the intersection of its old keys with the listed ones.
    #[verifier::loop_isolation(false)]
    pub fn retain_only(&mut self, keys_to_keep: &Vec<String>)
        ensures
            final(self).entries@ == old(self).entries@.filter(
                |e: (String, u64)| key_listed(keys_to_keep@, e.0@),
            ),
            old(self).wf() ==> final(self).wf(),
            final(self).next_handle == old(self).next_handle,
            forall|k: Seq<char>|
                final(self).has_key(k) <==> (old(self).has_key(k) && key_listed(
                    keys_to_keep@,
                    k,
                )),
            forall|k: Seq<char>, h: u64|
                old(self).has_entry(k, h) && key_listed(keys_to_keep@, k) ==> final(self).has_entry(
                    k,
                    h,
                ),
    {
        let ghost pred = |e: (String, u64)| key_listed(keys_to_keep@, e.0@);
        let n = self.entries.len();
        let mut kept: Vec<(String, u64)> = Vec::new();
        let mut i: usize = 0;
        proof {
            reveal(Seq::filter);
            assert(self.entries@.subrange(0, 0).filter(pred) =~= Seq::<(String, u64)>::empty());
        }
        while i < n
            invariant
                n == self.entries@.len(),
                i <= n,
                kept@ == self.entries@.subrange(0, i as int).filter(pred),
            decreases n - i,
        {
            proof {
                reveal(Seq::filter);
                assert(self.entries@.subrange(0, i + 1).drop_last() =~= self.entries@.subrange(
                    0,
                    i as int,
                ));
                assert(self.entries@.subrange(0, i + 1).last() == self.entries@[i as int]);
            }
            let listed = key_listed_exec(keys_to_keep, self.entries[i].0.as_str());
            if listed {
                let e = (self.entries[i].0.clone(), self.entries[i].1);
                proof {
                    assert(e == self.entries@[i as int]);
                }
                kept.push(e);
            }
            i += 1;
        }
        proof {
            assert(self.entries@.subrange(0, n as int) =~= self.entries@);
        }
        self.entries = kept;
        proof {
            if old(self).wf() {
                lemma_filter_keeps_distinct(old(self).entries@, pred);
            }
            old(self).entries@.filter_lemma(pred);
            lemma_filter_subset(old(self).entries@, pred);
            assert forall|k: Seq<char>|
                self.has_key(k) <==> (old(self).has_key(k) && key_listed(keys_to_keep@, k)) by {
                let filtered = old(self).entries@.filter(pred);
                if self.has_key(k) {
                    let i = choose|i: int|
                        0 <= i < self.entries@.len() && (#[trigger] self.entries@[i]).0@ == k;
                    assert(pred(filtered[i]));
                    assert(filtered.contains(filtered[i]));
                    assert(old(self).entries@.contains(filtered[i]));
                    let j = choose|j: int|
                        0 <= j < old(self).entries@.len() && old(self).entries@[j] == filtered[i];
                    assert((#[trigger] old(self).entries@[j]).0@ == k);
                }
                if old(self).has_key(k) && key_listed(keys_to_keep@, k) {
                    let j = choose|j: int|
                        0 <= j < old(self).entries@.len() && (#[trigger] old(self).entries@[j]).0@
                            == k;
                    assert(pred(old(self).entries@[j]));
                    assert(filtered.contains(old(self).entries@[j]));
                    let i = choose|i: int|
                        0 <= i < filtered.len() && filtered[i] == old(self).entries@[j];
                    assert((#[trigger] self.entries@[i]).0@ == k);
                }
            }
            assert forall|k: Seq<char>, h: u64|
                old(self).has_entry(k, h) && key_listed(keys_to_keep@, k) implies self.has_entry(
                k,
                h,
            ) by {
                let filtered = old(self).entries@.filter(pred);
                let j = choose|j: int|
                    0 <= j < old(self).entries@.len() && (#[trigger] old(self).entries@[j]).0@ == k
                        && old(self).entries@[j].1 == h;
                assert(pred(old(self).entries@[j]));
                assert(filtered.contains(old(self).entries@[j]));
                let i = choose|i: int|
                    0 <= i < filtered.len() && filtered[i] == old(self).entries@[j];
                assert((#[trigger] self.entries@[i]).0@ == k && self.entries@[i].1 == h);
            }
        }
    }
}

/// Every element of a filtered sequence occurs in the original.
proof fn lemma_filter_subset(s: Seq<(String, u64)>, pred: spec_fn((String, u64)) -> bool)
    ensures
        forall|x: (String, u64)| #[trigger] s.filter(pred).contains(x) ==> s.contains(x),
    decreases s.len(),
{
    reveal(Seq::filter);
    if s.len() > 0 {
        lemma_filter_subset(s.drop_last(), pred);
        assert forall|x: (String, u64)| #[trigger] s.filter(pred).contains(x) implies s.contains(
            x,
        ) by {
            let f = s.filter(pred);
            let i = choose|i: int| 0 <= i < f.len() && f[i] == x;
            let sub = s.drop_last().filter(pred);
            if pred(s.last()) && i == f.len() - 1 {
                assert(s[s.len() - 1] == x);
            } else {
                assert(sub[i] == x);
                assert(sub.contains(x));
                let j = choose|j: int| 0 <= j < s.drop_last().len() && s.drop_last()[j] == x;
                assert(s[j] == x);
            }
        }
    }
}

/// Filtering a sequence of entries with pairwise-distinct keys keeps the
/// keys pairwise distinct.
proof fn lemma_filter_keeps_distinct(s: Seq<(String, u64)>, pred: spec_fn((String, u64)) -> bool)
    requires
        forall|i: int, j: int|
            0 <= i < j < s.len() ==> (#[trigger] s[i]).0@ != (#[trigger] s[j]).0@,
    ensures
        forall|i: int, j: int|
            0 <= i < j < s.filter(pred).len() ==> (#[trigger] s.filter(pred)[i]).0@ != (
            #[trigger] s.filter(pred)[j]).0@,
    decreases s.len(),
{
    reveal(Seq::filter);
    if s.len() > 0 {
        let sub = s.drop_last();
        assert(forall|i: int, j: int|
            0 <= i < j < sub.len() ==> (#[trigger] sub[i]).0@ != (#[trigger] sub[j]).0@);
        lemma_filter_keeps_distinct(sub, pred);
        lemma_filter_subset(sub, pred);
        let f = s.filter(pred);
        let fsub = sub.filter(pred);
        assert forall|i: int, j: int| 0 <= i < j < f.len() implies (#[trigger] f[i]).0@ != (
        #[trigger] f[j]).0@ by {
            if pred(s.last()) && j == f.len() - 1 {
                assert(f[j] == s.last());
                assert(fsub[i] == f[i]);
                assert(fsub.contains(f[i]));
                assert(sub.contains(f[i]));
                let k = choose|k: int| 0 <= k < sub.len() && sub[k] == f[i];
                assert(s[k] == f[i]);
                assert(s[k].0@ != s[s.len() - 1].0@);
            } else {
                assert(f[i] == fsub[i] && f[j] == fsub[j]);
            }
        }
    }
}

/// Whether `k` occurs among `keys`.
pub fn key_listed_exec(keys: &Vec<String>, k: &str) -> (r: bool)
    ensures
        r == key_listed(keys@, k@),
{
    let n = keys.len();
    let mut i: usize = 0;
    while i < n
        invariant
            n == keys@.len(),
            i <= n,
            forall|j: int| 0 <= j < i ==> (#[trigger] keys@[j])@ != k@,
        decreases n - i,
    {
        if str_eq(keys[i].as_str(), k) {
            return true;
        }
        i += 1;
    }
    false
}

} // verus!
