//! The crate-level laws: statements that relate several functions, proved
//! over the same spec functions their contracts use.

use vstd::prelude::*;
use crate::config::ConfigV2;
use crate::director::{
    build_view, host_key, root_choice, route_view_of, sorted_routes_prefix, wildcard_matches,
    GhostDirectorView, RouteEntryView, RootResolveOutcome, ins_pos, insert_route_spec,
    lemma_ins_pos, route_before, via_vhost_clause,
};
use crate::vhost_director::{
    add_header_spec, first_match_idx, keep_other, lemma_first_match_idx, remove_header_spec,
    route_redirect,
};
use crate::director::{header_first, route_matches};
use crate::strutil::{contains_char, is_prefix_of, lower_seq};

verus! {

/// Compiling one configuration is deterministic: two compilations of the
/// same configuration present identical routing views, so every resolution
/// over them behaves identically.
pub proof fn lemma_compile_round_trip(
    c: ConfigV2,
    v1: GhostDirectorView,
    v2: GhostDirectorView,
    h: Seq<char>,
    path: Seq<char>,
    method: Seq<char>,
    headers: Seq<(Seq<char>, Seq<char>)>,
    q: Option<Seq<char>>,
)
    requires
        v1.exact == build_view(c).exact,
        v1.wildcards == build_view(c).wildcards,
        v2.exact == build_view(c).exact,
        v2.wildcards == build_view(c).wildcards,
        v1.default == v2.default,
    ensures
        v1.exact == v2.exact,
        v1.wildcards == v2.wildcards,
        root_choice(v1, h, path, method, headers, q) == root_choice(v2, h, path, method, headers, q),
{
}

/// Hostname resolution is case-insensitive and port-independent: two Host
/// header values naming the same unbracketed host, in any letter case and
/// with any `:port` suffix, normalize to the same key and therefore take
/// the same hostname-tier decision.
pub proof fn lemma_host_case_port_insensitive(
    v: GhostDirectorView,
    n1: Seq<char>,
    n2: Seq<char>,
    p1: Seq<char>,
    p2: Seq<char>,
    path: Seq<char>,
    method: Seq<char>,
    headers: Seq<(Seq<char>, Seq<char>)>,
    q: Option<Seq<char>>,
)
    requires
        !contains_char(n1, ':'),
        !contains_char(n2, ':'),
        n1.len() == 0 || n1[0] != '[',
        n2.len() == 0 || n2[0] != '[',
        crate::director::valid_port_digits(p1),
        crate::director::valid_port_digits(p2),
        lower_seq(n1) == lower_seq(n2),
    ensures
        host_key(n1 + seq![':'] + p1) == host_key(n2 + seq![':'] + p2),
        root_choice(v, host_key(n1 + seq![':'] + p1), path, method, headers, q) == root_choice(
            v,
            host_key(n2 + seq![':'] + p2),
            path,
            method,
            headers,
            q,
        ),
{
    lemma_host_key_strips_port(n1, p1);
    lemma_host_key_strips_port(n2, p2);
}

/// The host key of `name:port` is the lowercased name, for an unbracketed
/// name and a numeric port.
pub proof fn lemma_host_key_strips_port(n: Seq<char>, port: Seq<char>)
    requires
        !contains_char(n, ':'),
        n.len() == 0 || n[0] != '[',
        crate::director::valid_port_digits(port),
    ensures
        host_key(n + seq![':'] + port) == lower_seq(n),
{
    let s = n + seq![':'] + port;
    assert(s[n.len() as int] == ':');
    if n.len() == 0 {
        assert(s[0] == ':');
    } else {
        assert(s[0] == n[0]);
    }
    crate::strutil::lemma_rfind_idx(s, ':');
    let c = crate::strutil::rfind_idx(s, ':');
    if c == -1 {
        assert(false);
    }
    assert forall|j: int| 0 <= j < port.len() implies #[trigger] port[j] != ':' by {
        assert(48 <= port[j] as u32 <= 57);
    }
    if c < n.len() {
        assert(s[c] == n[c]);
        assert(contains_char(n, ':'));
        assert(false);
    }
    if c > n.len() {
        assert(s[c] == port[c - n.len() - 1]);
        assert(false);
    }
    assert(s.skip(c + 1) =~= port);
    assert(s.subrange(0, n.len() as int) =~= n);
}

/// A wildcard `*.X` matches exactly one extra non-empty label: it never
/// matches `X` itself, never matches a name with a dot inside the wildcard
/// slot, and always matches one well-formed extra label.
pub proof fn lemma_wildcard_single_label(x: Seq<char>, label: Seq<char>)
    ensures
        !wildcard_matches(seq!['*', '.'] + x, x),
        label.len() > 0 && contains_char(label, '.') ==> !wildcard_matches(
            seq!['*', '.'] + x,
            label + seq!['.'] + x,
        ),
        label.len() > 0 && !contains_char(label, '.') ==> wildcard_matches(
            seq!['*', '.'] + x,
            label + seq!['.'] + x,
        ),
{
    let p = seq!['*', '.'] + x;
    let suffix = p.skip(1);
    assert(suffix =~= seq!['.'] + x);
    assert(x.len() < suffix.len());
    if label.len() > 0 {
        let host = label + seq!['.'] + x;
        assert(host.len() - suffix.len() == label.len());
        assert(host.subrange(host.len() - suffix.len(), host.len() as int) =~= suffix);
        if contains_char(label, '.') {
            let i = choose|i: int| 0 <= i < label.len() && label[i] == '.';
            assert(host[i] == '.');
            assert(!(forall|j: int|
                0 <= j < host.len() - suffix.len() ==> #[trigger] host[j] != '.'));
        } else {
            assert forall|j: int|
                0 <= j < host.len() - suffix.len() implies #[trigger] host[j] != '.' by {
                assert(host[j] == label[j]);
            }
        }
    }
}

/// Element-wise path prefix matching: a path extending `prefix` matches
/// exactly when the extension is empty, continues at a `/`, or the prefix
/// itself ends in `/`.
pub proof fn lemma_path_prefix_element_wise(prefix: Seq<char>, suffix: Seq<char>)
    requires
        prefix.len() > 0,
    ensures
        crate::director::path_prefix_matches(prefix, prefix + suffix) <==> (suffix.len() == 0
            || suffix[0] == '/' || prefix[prefix.len() - 1] == '/'),
{
    let path = prefix + suffix;
    assert(path.subrange(0, prefix.len() as int) =~= prefix);
    assert(is_prefix_of(prefix, path));
    if suffix.len() == 0 {
        assert(path =~= prefix);
    } else {
        assert(path.len() > prefix.len());
        assert(path[prefix.len() as int] == suffix[0]);
        if prefix == seq!['/'] {
            assert(prefix[prefix.len() - 1] == '/');
        } else {
            if path == prefix {
                assert(path.len() == prefix.len());
                assert(false);
            }
        }
    }
}

/// The compiled, sorted route list keeps priorities descending and breaks
/// priority ties by source order: at equal priority the route that came
/// first in the configuration (the lower `rule_index`) stands first.
pub proof fn lemma_sorted_prefix_props(routes: Seq<crate::config::Route>, k: int)
    requires
        0 <= k <= routes.len(),
    ensures
        ({
            let s = sorted_routes_prefix(routes, k);
            &&& (forall|a: int, b: int|
                0 <= a < b < s.len() ==> (#[trigger] s[a]).priority >= (#[trigger] s[b]).priority)
            &&& (forall|a: int, b: int|
                0 <= a < b < s.len() && (#[trigger] s[a]).priority == (#[trigger] s[b]).priority
                    ==> s[a].rule_index < s[b].rule_index)
            &&& (forall|a: int| 0 <= a < s.len() ==> 0 <= (#[trigger] s[a]).rule_index < k)
        }),
    decreases k,
{
    if k > 0 {
        lemma_sorted_prefix_props(routes, k - 1);
        let prev = sorted_routes_prefix(routes, k - 1);
        let e = route_view_of(routes[k - 1], k - 1);
        let s = sorted_routes_prefix(routes, k);
        lemma_ins_pos(prev, e);
        let p = ins_pos(prev, e);
        assert(s == insert_route_spec(prev, e));
        assert(s =~= prev.subrange(0, p).push(e) + prev.subrange(p, prev.len() as int));
        assert forall|a: int, b: int| 0 <= a < b < s.len() implies (#[trigger] s[a]).priority >= (
        #[trigger] s[b]).priority && ((s[a].priority == s[b].priority) ==> s[a].rule_index
            < s[b].rule_index) by {
            if a < p {
                assert(s[a] == prev[a]);
            } else if a == p {
                assert(s[a] == e);
            } else {
                assert(s[a] == prev[a - 1]);
            }
            if b < p {
                assert(s[b] == prev[b]);
            } else if b == p {
                assert(s[b] == e);
            } else {
                assert(s[b] == prev[b - 1]);
            }
            if b == p {
                assert(!route_before(e, prev[a]));
            }
            if a == p && b > p {
                assert(route_before(e, prev[p]));
                if b - 1 > p {
                    assert(prev[p].priority >= prev[b - 1].priority);
                }
            }
        }
        assert forall|a: int| 0 <= a < s.len() implies 0 <= (#[trigger] s[a]).rule_index < k by {
            if a < p {
                assert(s[a] == prev[a]);
            } else if a == p {
                assert(s[a] == e);
            } else {
                assert(s[a] == prev[a - 1]);
            }
        }
    }
}

/// Priority tie-break is stable in source order: when a route matches, any
/// other matching route either has a strictly lower priority or, at equal
/// priority, a higher `rule_index` than the winner.
pub proof fn lemma_priority_tie_break(
    routes: Seq<crate::config::Route>,
    path: Seq<char>,
    method: Seq<char>,
    headers: Seq<(Seq<char>, Seq<char>)>,
    q: Option<Seq<char>>,
    j: int,
)
    requires
        ({
            let s = sorted_routes_prefix(routes, routes.len() as int);
            &&& first_match_idx(s, path, method, headers, q) >= 0
            &&& 0 <= j < s.len()
            &&& route_matches(s[j], path, method, headers, q)
            &&& j != first_match_idx(s, path, method, headers, q)
        }),
    ensures
        ({
            let s = sorted_routes_prefix(routes, routes.len() as int);
            let fm = first_match_idx(s, path, method, headers, q);
            s[fm].priority > s[j].priority || (s[fm].priority == s[j].priority && s[fm].rule_index
                < s[j].rule_index)
        }),
{
    let s = sorted_routes_prefix(routes, routes.len() as int);
    let fm = first_match_idx(s, path, method, headers, q);
    lemma_first_match_idx(s, path, method, headers, q);
    assert(fm < j);
    lemma_sorted_prefix_props(routes, routes.len() as int);
}

/// A matched route with an empty backend list and no redirect filter
/// always resolves to the internal-error synthetic backend.
pub proof fn lemma_empty_backends_internal_error(
    routes: Seq<RouteEntryView>,
    url0: Seq<char>,
    hv: Seq<(Seq<char>, Seq<char>)>,
    method: Seq<char>,
    q: Option<Seq<char>>,
    url1: Seq<char>,
    hv1: Seq<(Seq<char>, Seq<char>)>,
    r: RootResolveOutcome,
    pool_entries: Seq<(Seq<char>, u64)>,
)
    requires
        via_vhost_clause(routes, url0, hv, method, q, url1, hv1, r, pool_entries),
        ({
            let fm = first_match_idx(routes, crate::director::split_path(url0), method, hv, q);
            &&& route_redirect(routes[fm]) is None
            &&& routes[fm].backends.len() == 0
        }),
    ensures
        r.resolution is InternalError,
{
}

/// Count of header lines whose lowercased name equals `n`.
pub open spec fn count_name(headers: Seq<(Seq<char>, Seq<char>)>, n: Seq<char>) -> int
    decreases headers.len(),
{
    if headers.len() == 0 {
        0int
    } else {
        (if lower_seq(headers[0].0) == n {
            1int
        } else {
            0int
        }) + count_name(headers.skip(1), n)
    }
}

/// After removing a name, no line of that name remains.
pub proof fn lemma_remove_header_count(headers: Seq<(Seq<char>, Seq<char>)>, n: Seq<char>)
    ensures
        count_name(remove_header_spec(headers, n), n) == 0,
    decreases headers.len(),
{
    reveal(Seq::filter);
    if headers.len() == 0 {
        assert(count_name(remove_header_spec(headers, n), n) == 0);
    } else {
        lemma_remove_header_count(headers.drop_last(), n);
        let f = remove_header_spec(headers, n);
        let sub = remove_header_spec(headers.drop_last(), n);
        if keep_other(n)(headers.last()) {
            assert(f == sub.push(headers.last()));
            lemma_count_name_push(sub, headers.last(), n);
        } else {
            assert(f == sub);
        }
    }
}

/// Counting distributes over push.
pub proof fn lemma_count_name_push(
    s: Seq<(Seq<char>, Seq<char>)>,
    e: (Seq<char>, Seq<char>),
    n: Seq<char>,
)
    ensures
        count_name(s.push(e), n) == count_name(s, n) + (if lower_seq(e.0) == n {
            1int
        } else {
            0int
        }),
    decreases s.len(),
{
    if s.len() == 0 {
        assert(s.push(e).skip(1) =~= Seq::<(Seq<char>, Seq<char>)>::empty());
        assert(count_name(Seq::<(Seq<char>, Seq<char>)>::empty(), n) == 0);
    } else {
        assert(s.push(e)[0] == s[0]);
        assert(s.push(e).skip(1) =~= s.skip(1).push(e));
        lemma_count_name_push(s.skip(1), e, n);
    }
}

/// A line count is never negative.
pub proof fn lemma_count_name_nonneg(s: Seq<(Seq<char>, Seq<char>)>, n: Seq<char>)
    ensures
        count_name(s, n) >= 0,
    decreases s.len(),
{
    if s.len() > 0 {
        lemma_count_name_nonneg(s.skip(1), n);
    }
}

/// The first line of a name after pushing one entry of that name onto a
/// list with no line of it: exactly the pushed value.
pub proof fn lemma_header_first_push(
    s: Seq<(Seq<char>, Seq<char>)>,
    e: (Seq<char>, Seq<char>),
    n: Seq<char>,
)
    requires
        count_name(s, n) == 0,
        lower_seq(e.0) == n,
    ensures
        header_first(s.push(e), n) == Some(e.1),
    decreases s.len(),
{
    if s.len() == 0 {
        assert(s.push(e)[0] == e);
    } else {
        lemma_count_name_nonneg(s.skip(1), n);
        assert(lower_seq(s[0].0) != n);
        assert(s.push(e)[0] == s[0]);
        assert(s.push(e).skip(1) =~= s.skip(1).push(e));
        lemma_header_first_push(s.skip(1), e, n);
    }
}

/// When no line of a name exists, its count is zero.
pub proof fn lemma_header_first_none_count(headers: Seq<(Seq<char>, Seq<char>)>, n: Seq<char>)
    requires
        header_first(headers, n) is None,
    ensures
        count_name(headers, n) == 0,
    decreases headers.len(),
{
    if headers.len() > 0 {
        lemma_header_first_none_count(headers.skip(1), n);
    }
}

/// The `add` response-header action appends to an existing value as one
/// comma-separated line and never produces duplicate lines: afterwards
/// exactly one line of that name exists, holding the old value, a comma
/// and the new value (or just the new value when the header was absent).
pub proof fn lemma_add_header_single_line(
    headers: Seq<(Seq<char>, Seq<char>)>,
    name: Seq<char>,
    value: Seq<char>,
)
    ensures
        count_name(add_header_spec(headers, name, value), lower_seq(name)) == 1,
        header_first(add_header_spec(headers, name, value), lower_seq(name)) == Some(
            match header_first(headers, lower_seq(name)) {
                Some(v) => v + seq![','] + value,
                None => value,
            },
        ),
{
    let n = lower_seq(name);
    let out = add_header_spec(headers, name, value);
    match header_first(headers, n) {
        Some(v) => {
            let base = remove_header_spec(headers, n);
            lemma_remove_header_count(headers, n);
            lemma_count_name_push(base, (name, v + seq![','] + value), n);
            lemma_header_first_push(base, (name, v + seq![','] + value), n);
        },
        None => {
            lemma_header_first_none_count(headers, n);
            lemma_count_name_push(headers, (name, value), n);
            lemma_header_first_push(headers, (name, value), n);
        },
    }
}

} // verus!
