//! Host matching and backend selection for the legacy per-vhost schema:
//! exact hostname, then wildcard, then the global default.

use vstd::prelude::*;
use vstd::string::*;
use crate::config::{Backend, Config, VHost};
use crate::director::matches_wildcard;
use crate::strutil::{lower_seq, str_eq, str_to_lowercase};
use crate::rng::random_below;

verus! {

/// Result of vhost matching.
pub enum MatchResult<'a> {
    /// Found a matching vhost with backends.
    Found(&'a VHost),
    /// No vhost matched.
    NotFound,
    /// Matched but no backends available.
    NoBackends,
}

/// First vhost whose name equals `h` exactly, or -1.
pub open spec fn exact_idx(vhosts: Seq<(String, VHost)>, h: Seq<char>) -> int
    decreases vhosts.len(),
{
    if vhosts.len() == 0 {
        -1
    } else if vhosts[0].0@ == h {
        0
    } else {
        let r = exact_idx(vhosts.skip(1), h);
        if r < 0 {
            -1
        } else {
            r + 1
        }
    }
}

/// First vhost whose wildcard pattern matches `h`, or -1.
pub open spec fn wild_idx(vhosts: Seq<(String, VHost)>, h: Seq<char>) -> int
    decreases vhosts.len(),
{
    if vhosts.len() == 0 {
        -1
    } else if crate::director::wildcard_matches(vhosts[0].0@, h) {
        0
    } else {
        let r = wild_idx(vhosts.skip(1), h);
        if r < 0 {
            -1
        } else {
            r + 1
        }
    }
}

pub proof fn lemma_exact_idx(vhosts: Seq<(String, VHost)>, h: Seq<char>)
    ensures
        exact_idx(vhosts, h) == -1 ==> (forall|i: int|
            0 <= i < vhosts.len() ==> (#[trigger] vhosts[i]).0@ != h),
        exact_idx(vhosts, h) != -1 ==> 0 <= exact_idx(vhosts, h) < vhosts.len() && vhosts[exact_idx(
            vhosts,
            h,
        )].0@ == h && (forall|i: int| 0 <= i < exact_idx(vhosts, h) ==> (#[trigger] vhosts[i]).0@
            != h),
    decreases vhosts.len(),
{
    if vhosts.len() == 0 {
    } else if vhosts[0].0@ == h {
    } else {
        lemma_exact_idx(vhosts.skip(1), h);
        let t = vhosts.skip(1);
        assert(forall|i: int| 0 <= i < t.len() ==> #[trigger] t[i] == vhosts[i + 1]);
        let r = exact_idx(t, h);
        if r == -1 {
            assert forall|i: int| 0 <= i < vhosts.len() implies (#[trigger] vhosts[i]).0@ != h by {
                if i > 0 {
                    assert(t[i - 1] == vhosts[i]);
                }
            }
        } else {
            assert(vhosts[r + 1] == t[r]);
            assert forall|i: int| 0 <= i < r + 1 implies (#[trigger] vhosts[i]).0@ != h by {
                if i > 0 {
                    assert(t[i - 1] == vhosts[i]);
                }
            }
        }
    }
}

pub proof fn lemma_wild_idx(vhosts: Seq<(String, VHost)>, h: Seq<char>)
    ensures
        wild_idx(vhosts, h) == -1 ==> (forall|i: int|
            0 <= i < vhosts.len() ==> !crate::director::wildcard_matches(
                (#[trigger] vhosts[i]).0@,
                h,
            )),
        wild_idx(vhosts, h) != -1 ==> 0 <= wild_idx(vhosts, h) < vhosts.len()
            && crate::director::wildcard_matches(vhosts[wild_idx(vhosts, h)].0@, h) && (
        forall|i: int|
            0 <= i < wild_idx(vhosts, h) ==> !crate::director::wildcard_matches(
                (#[trigger] vhosts[i]).0@,
                h,
            )),
    decreases vhosts.len(),
{
    if vhosts.len() == 0 {
    } else if crate::director::wildcard_matches(vhosts[0].0@, h) {
    } else {
        lemma_wild_idx(vhosts.skip(1), h);
        let t = vhosts.skip(1);
        assert(forall|i: int| 0 <= i < t.len() ==> #[trigger] t[i] == vhosts[i + 1]);
        let r = wild_idx(t, h);
        if r == -1 {
            assert forall|i: int|
                0 <= i < vhosts.len() implies !crate::director::wildcard_matches(
                (#[trigger] vhosts[i]).0@,
                h,
            ) by {
                if i > 0 {
                    assert(t[i - 1] == vhosts[i]);
                }
            }
        } else {
            assert(vhosts[r + 1] == t[r]);
            assert forall|i: int|
                0 <= i < r + 1 implies !crate::director::wildcard_matches(
                (#[trigger] vhosts[i]).0@,
                h,
            ) by {
                if i > 0 {
                    assert(t[i - 1] == vhosts[i]);
                }
            }
        }
    }
}

/// Match a hostname against the configuration: exact name first, then the
/// wildcard patterns in order, then the global default. A matched vhost
/// without backends yields `NoBackends`; no match yields `NotFound`.
#[verifier::loop_isolation(false)]
pub fn match_vhost<'a>(config: &'a Config, host: &str) -> (r: MatchResult<'a>)
    ensures
        ({
            let h = lower_seq(host@);
            let e = exact_idx(config.vhosts@, h);
            let w = wild_idx(config.vhosts@, h);
            if e >= 0 {
                if config.vhosts@[e].1.backends@.len() == 0 {
                    r is NoBackends
                } else {
                    r matches MatchResult::Found(v) && *v == config.vhosts@[e].1
                }
            } else if w >= 0 {
                if config.vhosts@[w].1.backends@.len() == 0 {
                    r is NoBackends
                } else {
                    r matches MatchResult::Found(v) && *v == config.vhosts@[w].1
                }
            } else {
                match config.default {
                    Some(d) => if d.backends@.len() > 0 {
                        r matches MatchResult::Found(v) && *v == d
                    } else {
                        r is NoBackends
                    },
                    None => r is NotFound,
                }
            }
        }),
{
    let lowered = str_to_lowercase(host);
    let ghost h = lower_seq(host@);
    proof {
        lemma_exact_idx(config.vhosts@, h);
        lemma_wild_idx(config.vhosts@, h);
    }
    let n = config.vhosts.len();
    let mut i: usize = 0;
    while i < n
        invariant
            i <= n,
            forall|j: int| 0 <= j < i ==> (#[trigger] config.vhosts@[j]).0@ != h,
        decreases n - i,
    {
        if str_eq(config.vhosts[i].0.as_str(), lowered.as_str()) {
            let vhost = &config.vhosts[i].1;
            if vhost.backends.len() == 0 {
                return MatchResult::NoBackends;
            }
            return MatchResult::Found(vhost);
        }
        i += 1;
    }
    let mut i: usize = 0;
    while i < n
        invariant
            i <= n,
            forall|j: int|
                0 <= j < i ==> !crate::director::wildcard_matches(
                    (#[trigger] config.vhosts@[j]).0@,
                    h,
                ),
        decreases n - i,
    {
        if matches_wildcard(config.vhosts[i].0.as_str(), lowered.as_str()) {
            let vhost = &config.vhosts[i].1;
            if vhost.backends.len() == 0 {
                return MatchResult::NoBackends;
            }
            return MatchResult::Found(vhost);
        }
        i += 1;
    }
    match &config.default {
        Some(vhost) => {
            if vhost.backends.len() > 0 {
                MatchResult::Found(vhost)
            } else {
                MatchResult::NoBackends
            }
        },
        None => MatchResult::NotFound,
    }
}

/// Sum of the weights of a backend list.
pub open spec fn total_weight_b(bs: Seq<Backend>) -> int
    decreases bs.len(),
{
    if bs.len() == 0 {
        0int
    } else {
        total_weight_b(bs.drop_last()) + bs.last().weight
    }
}

proof fn lemma_total_weight_b_nonneg(bs: Seq<Backend>)
    ensures
        total_weight_b(bs) >= 0,
    decreases bs.len(),
{
    if bs.len() > 0 {
        lemma_total_weight_b_nonneg(bs.drop_last());
    }
}

proof fn lemma_total_weight_b_first(bs: Seq<Backend>)
    requires
        bs.len() > 0,
    ensures
        total_weight_b(bs) == bs.first().weight + total_weight_b(bs.skip(1)),
    decreases bs.len(),
{
    if bs.len() == 1 {
        assert(bs.drop_last() =~= Seq::<Backend>::empty());
        assert(bs.skip(1) =~= Seq::<Backend>::empty());
    } else {
        lemma_total_weight_b_first(bs.drop_last());
        assert(bs.drop_last().first() == bs.first());
        assert(bs.drop_last().skip(1) =~= bs.skip(1).drop_last());
        assert(bs.skip(1).last() == bs.last());
    }
}

/// The backend a draw of `r` selects: the first whose cumulative weight
/// exceeds `r`.
pub open spec fn pick_index_b(bs: Seq<Backend>, r: int) -> int
    decreases bs.len(),
{
    if bs.len() == 0 {
        0int
    } else if r < bs.first().weight {
        0int
    } else {
        1 + pick_index_b(bs.skip(1), r - bs.first().weight)
    }
}

/// Weighted choice once a value `r` below the total weight has been drawn:
/// walk the cumulative weights and return the first backend to pass `r`.
#[verifier::loop_isolation(false)]
pub fn select_backend_at<'a>(vhost: &'a VHost, r: u64) -> (out: &'a Backend)
    requires
        vhost.backends@.len() > 0,
        r < total_weight_b(vhost.backends@),
        total_weight_b(vhost.backends@) <= u64::MAX,
    ensures
        ({
            let i = pick_index_b(vhost.backends@, r as int);
            0 <= i < vhost.backends@.len() && *out == vhost.backends@[i]
        }),
{
    let bs = &vhost.backends;
    let n = bs.len();
    let mut cumulative: u64 = 0;
    let mut i: usize = 0;
    proof {
        assert(bs@.skip(0) =~= bs@);
        assert(bs@.subrange(0, 0) =~= Seq::<Backend>::empty());
    }
    loop
        invariant
            n == bs@.len(),
            i < n,
            cumulative <= r,
            r < total_weight_b(bs@),
            total_weight_b(bs@) <= u64::MAX,
            cumulative == total_weight_b(bs@.subrange(0, i as int)),
            total_weight_b(bs@) == cumulative + total_weight_b(bs@.skip(i as int)),
            pick_index_b(bs@, r as int) == i + pick_index_b(bs@.skip(i as int), r - cumulative),
        decreases n - i,
    {
        let w = bs[i].weight;
        proof {
            lemma_total_weight_b_first(bs@.skip(i as int));
            lemma_total_weight_b_nonneg(bs@.skip(i as int).skip(1));
            assert(bs@.skip(i as int).first() == bs@[i as int]);
        }
        if r < cumulative + (w as u64) {
            let b = &bs[i];
            proof {
                assert(pick_index_b(bs@.skip(i as int), r - cumulative) == 0);
            }
            return b;
        }
        proof {
            assert(bs@.skip(i as int).skip(1) =~= bs@.skip(i + 1));
            assert(bs@.subrange(0, i + 1).drop_last() =~= bs@.subrange(0, i as int));
            assert(bs@.subrange(0, i + 1).last() == bs@[i as int]);
        }
        cumulative = cumulative + (w as u64);
        i += 1;
        proof {
            if i == n {
                assert(bs@.skip(n as int) =~= Seq::<Backend>::empty());
                assert(false);
            }
        }
    }
}

/// Select a backend by weighted random draw: a single backend is returned
/// outright; an empty list or a zero weight sum among several yields
/// `None`; otherwise a draw below the weight sum picks the first backend
/// whose cumulative weight exceeds it. Whatever the draw, the result is
/// one of the vhost's backends.
#[verifier::loop_isolation(false)]
pub fn select_backend<'a>(vhost: &'a VHost) -> (out: Option<&'a Backend>)
    requires
        vhost.backends@.len() < 0x1_0000_0000,
    ensures
        match out {
            Some(b) => exists|i: int| 0 <= i < vhost.backends@.len() && *b == vhost.backends@[i],
            None => vhost.backends@.len() == 0 || total_weight_b(vhost.backends@) == 0,
        },
        vhost.backends@.len() == 0 ==> out is None,
        vhost.backends@.len() == 1 ==> (out matches Some(b) && *b == vhost.backends@[0]),
        vhost.backends@.len() > 0 && total_weight_b(vhost.backends@) > 0 ==> out is Some,
        out is Some ==> vhost.backends@.len() == 1 || total_weight_b(vhost.backends@) > 0,
{
    let bs = &vhost.backends;
    let n = bs.len();
    if n == 0 {
        return None;
    }
    if n == 1 {
        let b = &bs[0];
        proof {
            assert(0 <= 0int < bs@.len() && *b == bs@[0int]);
        }
        return Some(b);
    }
    let mut total: u64 = 0;
    let mut i: usize = 0;
    while i < n
        invariant
            i <= n,
            n == bs@.len(),
            total == total_weight_b(bs@.subrange(0, i as int)),
            total <= i * 0x1_0000_0000,
        decreases n - i,
    {
        proof {
            assert(bs@.subrange(0, i + 1).drop_last() =~= bs@.subrange(0, i as int));
            assert(bs@.subrange(0, i + 1).last() == bs@[i as int]);
        }
        let w = bs[i].weight;
        proof {
            assert(total + w <= (i + 1) * 0x1_0000_0000) by (nonlinear_arith)
                requires
                    total <= i * 0x1_0000_0000,
                    w < 0x1_0000_0000,
            ;
            assert((i + 1) * 0x1_0000_0000 <= 0xffff_ffff * 0x1_0000_0000) by (nonlinear_arith)
                requires
                    i + 1 <= 0xffff_ffff,
            ;
        }
        total = total + (w as u64);
        i += 1;
    }
    proof {
        assert(bs@.subrange(0, n as int) =~= bs@);
    }
    if total == 0 {
        return None;
    }
    let r = random_below(total);
    let b = select_backend_at(vhost, r);
    proof {
        let i = pick_index_b(bs@, r as int);
        assert(0 <= i < bs@.len() && *b == bs@[i]);
    }
    Some(b)
}

} // verus!
