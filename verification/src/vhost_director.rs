//! Per-vhost director: route matching in priority order, the filter
//! pipeline (request headers, URL rewrite, redirect capture, response
//! filter context), weighted endpoint selection and per-vhost statistics.

use vstd::prelude::*;
use vstd::string::*;
use crate::config::{
    clone_filters, clone_header_filter, clone_request_redirect, opt_filters_view, PathMatch,
    RequestHeaderFilter, RequestHeaderFilterView, RequestRedirectFilter,
    RequestRedirectFilterView, RouteFilters, URLRewriteFilter, URLRewriteFilterView,
};
use crate::director::{
    header_first, header_lookup, opt_q_view, pairs_view, parse_host_and_port, route_matches,
    routes_view, select_backend_weighted, split_path, split_query, total_weight,
    extract_path_and_query, host_of, port_of, PathMatchCompiled, PathMatchView, RouteEntry,
    RouteEntryView, WeightedBackendRef,
};
use crate::redirect_backend::{heuristic_spec, replace_first_segment_heuristic, RedirectConfig,
    RedirectConfigView, trim_trailing_slashes, trim_end_slashes};
use crate::stats::{sel_count, VhostStats};
use crate::strutil::{is_prefix_of, lower_seq, push_char, str_eq, str_starts_with,
    str_to_lowercase};

verus! {

/// Severity of a note the director would log.
pub enum LogLevel {
    Debug,
    Error,
}

/// Index of the first route that accepts the request, or -1.
pub open spec fn first_match_idx(
    routes: Seq<RouteEntryView>,
    path: Seq<char>,
    method: Seq<char>,
    headers: Seq<(Seq<char>, Seq<char>)>,
    query: Option<Seq<char>>,
) -> int
    decreases routes.len(),
{
    if routes.len() == 0 {
        -1
    } else if route_matches(routes[0], path, method, headers, query) {
        0
    } else {
        let r = first_match_idx(routes.skip(1), path, method, headers, query);
        if r < 0 {
            -1
        } else {
            r + 1
        }
    }
}

pub proof fn lemma_first_match_idx(
    routes: Seq<RouteEntryView>,
    path: Seq<char>,
    method: Seq<char>,
    headers: Seq<(Seq<char>, Seq<char>)>,
    query: Option<Seq<char>>,
)
    ensures
        first_match_idx(routes, path, method, headers, query) == -1 ==> (forall|i: int|
            0 <= i < routes.len() ==> !route_matches(#[trigger] routes[i], path, method, headers, query)),
        first_match_idx(routes, path, method, headers, query) != -1 ==> {
            let r = first_match_idx(routes, path, method, headers, query);
            &&& 0 <= r < routes.len()
            &&& route_matches(routes[r], path, method, headers, query)
            &&& (forall|i: int|
                0 <= i < r ==> !route_matches(#[trigger] routes[i], path, method, headers, query))
        },
    decreases routes.len(),
{
    if routes.len() == 0 {
    } else if route_matches(routes[0], path, method, headers, query) {
    } else {
        lemma_first_match_idx(routes.skip(1), path, method, headers, query);
        let t = routes.skip(1);
        assert(forall|i: int| 0 <= i < t.len() ==> #[trigger] t[i] == routes[i + 1]);
        let r = first_match_idx(t, path, method, headers, query);
        if r == -1 {
            assert forall|i: int|
                0 <= i < routes.len() implies !route_matches(
                #[trigger] routes[i],
                path,
                method,
                headers,
                query,
            ) by {
                if i > 0 {
                    assert(t[i - 1] == routes[i]);
                }
            }
        } else {
            assert(routes[r + 1] == t[r]);
            assert forall|i: int|
                0 <= i < r + 1 implies !route_matches(
                #[trigger] routes[i],
                path,
                method,
                headers,
                query,
            ) by {
                if i > 0 {
                    assert(t[i - 1] == routes[i]);
                }
            }
        }
    }
}

/// Result of route matching: the matched route's backends, filters and
/// path-match context, and its position in the sorted route list.
pub struct RouteMatchResult<'a> {
    pub backends: &'a Vec<WeightedBackendRef>,
    pub filters: &'a Option<RouteFilters>,
    pub matched_path: Option<&'a PathMatchCompiled>,
    pub route_index: usize,
}

/// Match routes (already sorted by priority) against all conditions; the
/// first route whose every present condition holds wins, even with empty
/// backends.
#[verifier::loop_isolation(false)]
pub fn match_routes<'a>(
    routes: &'a Vec<RouteEntry>,
    path: &str,
    method: &str,
    headers: &Vec<(String, String)>,
    query_string: Option<&str>,
) -> (r: Option<RouteMatchResult<'a>>)
    ensures
        ({
            let fm = first_match_idx(
                routes_view(routes@),
                path@,
                method@,
                pairs_view(headers@),
                opt_q_view(query_string),
            );
            match r {
                Some(m) => {
                    &&& fm == m.route_index as int
                    &&& 0 <= fm < routes@.len()
                    &&& *m.backends == routes@[fm].backends
                    &&& *m.filters == routes@[fm].filters
                    &&& (match m.matched_path {
                        Some(p) => routes@[fm].path_match matches Some(pm) && *p == pm,
                        None => routes@[fm].path_match is None,
                    })
                },
                None => fm == -1,
            }
        }),
{
    let ghost rv = routes_view(routes@);
    let ghost pv = pairs_view(headers@);
    let ghost qv = opt_q_view(query_string);
    proof {
        lemma_first_match_idx(rv, path@, method@, pv, qv);
    }
    let n = routes.len();
    let mut i: usize = 0;
    while i < n
        invariant
            i <= n,
            forall|j: int| 0 <= j < i ==> !route_matches(#[trigger] rv[j], path@, method@, pv, qv),
        decreases n - i,
    {
        proof {
            assert(rv[i as int] == routes@[i as int]@);
        }
        if crate::director::route_entry_matches(&routes[i], path, method, headers, query_string) {
            let m = RouteMatchResult {
                backends: &routes[i].backends,
                filters: &routes[i].filters,
                matched_path: match &routes[i].path_match {
                    Some(pm) => Some(pm),
                    None => None,
                },
                route_index: i,
            };
            return Some(m);
        }
        i += 1;
    }
    None
}

/// Predicate keeping headers whose lowercased name differs from `name`.
pub open spec fn keep_other(name: Seq<char>) -> spec_fn((Seq<char>, Seq<char>)) -> bool {
    |h: (Seq<char>, Seq<char>)| lower_seq(h.0) != name
}

/// All header lines named `name` (case-insensitively) removed.
pub open spec fn remove_header_spec(
    headers: Seq<(Seq<char>, Seq<char>)>,
    name: Seq<char>,
) -> Seq<(Seq<char>, Seq<char>)> {
    headers.filter(keep_other(name))
}

/// `set` semantics: delete all lines of that name, then append one.
pub open spec fn set_header_spec(
    headers: Seq<(Seq<char>, Seq<char>)>,
    name: Seq<char>,
    value: Seq<char>,
) -> Seq<(Seq<char>, Seq<char>)> {
    remove_header_spec(headers, lower_seq(name)).push((name, value))
}

/// `add` semantics: append to the existing value as a single
/// comma-separated line, creating the header when absent; never a second
/// line of the same name.
pub open spec fn add_header_spec(
    headers: Seq<(Seq<char>, Seq<char>)>,
    name: Seq<char>,
    value: Seq<char>,
) -> Seq<(Seq<char>, Seq<char>)> {
    match header_first(headers, lower_seq(name)) {
        Some(existing) => remove_header_spec(headers, lower_seq(name)).push(
            (name, existing + seq![','] + value),
        ),
        None => headers.push((name, value)),
    }
}

/// Remove all header lines with the given name, case-insensitively.
#[verifier::loop_isolation(false)]
pub fn remove_header(headers: &mut Vec<(String, String)>, name: &str)
    ensures
        pairs_view(final(headers)@) == remove_header_spec(
            pairs_view(old(headers)@),
            lower_seq(name@),
        ),
{
    let lowered = str_to_lowercase(name);
    let ghost hv = pairs_view(headers@);
    let ghost pred = keep_other(lower_seq(name@));
    let n = headers.len();
    let mut out: Vec<(String, String)> = Vec::new();
    let mut i: usize = 0;
    proof {
        reveal(Seq::filter);
        assert(hv.subrange(0, 0).filter(pred) =~= Seq::<(Seq<char>, Seq<char>)>::empty());
        assert(pairs_view(out@) =~= Seq::<(Seq<char>, Seq<char>)>::empty());
    }
    while i < n
        invariant
            i <= n,
            n == headers@.len(),
            headers@ == old(headers)@,
            hv == pairs_view(headers@),
            pairs_view(out@) == hv.subrange(0, i as int).filter(pred),
        decreases n - i,
    {
        proof {
            reveal(Seq::filter);
            assert(hv.subrange(0, i + 1).drop_last() =~= hv.subrange(0, i as int));
            assert(hv.subrange(0, i + 1).last() == hv[i as int]);
            assert(hv[i as int] == (headers@[i as int].0@, headers@[i as int].1@));
        }
        let key_lower = str_to_lowercase(headers[i].0.as_str());
        let keep = !str_eq(key_lower.as_str(), lowered.as_str());
        if keep {
            out.push((headers[i].0.clone(), headers[i].1.clone()));
            proof {
                assert(pairs_view(out@) =~= hv.subrange(0, i + 1).filter(pred));
            }
        } else {
            proof {
                assert(pairs_view(out@) =~= hv.subrange(0, i + 1).filter(pred));
            }
        }
        i += 1;
    }
    proof {
        assert(hv.subrange(0, n as int) =~= hv);
    }
    *headers = out;
}

/// Replace all header lines of `name` with the single given value.
pub fn set_header(headers: &mut Vec<(String, String)>, name: &str, value: &str)
    ensures
        pairs_view(final(headers)@) == set_header_spec(pairs_view(old(headers)@), name@, value@),
{
    remove_header(headers, name);
    headers.push((String::from_str(name), String::from_str(value)));
    proof {
        assert(pairs_view(headers@) =~= set_header_spec(pairs_view(old(headers)@), name@, value@));
    }
}

/// Append `value` to the header's existing value as a comma-separated
/// single line, creating the header when absent.
pub fn add_header(headers: &mut Vec<(String, String)>, name: &str, value: &str)
    ensures
        pairs_view(final(headers)@) == add_header_spec(pairs_view(old(headers)@), name@, value@),
{
    let lowered = str_to_lowercase(name);
    let existing = match header_lookup(headers, lowered.as_str()) {
        Some(v) => Some(v.clone()),
        None => None,
    };
    match existing {
        Some(old_value) => {
            let ghost ov = old_value@;
            let mut combined = old_value;
            push_char(&mut combined, ',');
            combined.append(value);
            proof {
                assert(combined@ =~= ov + seq![','] + value@);
            }
            remove_header(headers, name);
            headers.push((String::from_str(name), combined));
            proof {
                assert(pairs_view(headers@) =~= add_header_spec(
                    pairs_view(old(headers)@),
                    name@,
                    value@,
                ));
            }
        },
        None => {
            headers.push((String::from_str(name), String::from_str(value)));
            proof {
                assert(pairs_view(headers@) =~= add_header_spec(
                    pairs_view(old(headers)@),
                    name@,
                    value@,
                ));
            }
        },
    }
}

/// Folding the `remove` actions, first to last.
pub open spec fn apply_removes(
    headers: Seq<(Seq<char>, Seq<char>)>,
    removes: Seq<Seq<char>>,
) -> Seq<(Seq<char>, Seq<char>)>
    decreases removes.len(),
{
    if removes.len() == 0 {
        headers
    } else {
        apply_removes(remove_header_spec(headers, lower_seq(removes[0])), removes.skip(1))
    }
}

/// Folding the `set` actions, first to last.
pub open spec fn apply_sets(
    headers: Seq<(Seq<char>, Seq<char>)>,
    sets: Seq<(Seq<char>, Seq<char>)>,
) -> Seq<(Seq<char>, Seq<char>)>
    decreases sets.len(),
{
    if sets.len() == 0 {
        headers
    } else {
        apply_sets(set_header_spec(headers, sets[0].0, sets[0].1), sets.skip(1))
    }
}

/// Folding the `add` actions, first to last.
pub open spec fn apply_adds(
    headers: Seq<(Seq<char>, Seq<char>)>,
    adds: Seq<(Seq<char>, Seq<char>)>,
) -> Seq<(Seq<char>, Seq<char>)>
    decreases adds.len(),
{
    if adds.len() == 0 {
        headers
    } else {
        apply_adds(add_header_spec(headers, adds[0].0, adds[0].1), adds.skip(1))
    }
}

/// What the whole request-header modifier does: remove, then set, then add.
pub open spec fn apply_header_filter_spec(
    headers: Seq<(Seq<char>, Seq<char>)>,
    f: RequestHeaderFilterView,
) -> Seq<(Seq<char>, Seq<char>)> {
    apply_adds(apply_sets(apply_removes(headers, f.remove), f.set), f.add)
}

/// Apply a header modifier to the request headers: remove, then set, then
/// add.
#[verifier::loop_isolation(false)]
pub fn apply_request_header_filter(
    headers: &mut Vec<(String, String)>,
    filter: &RequestHeaderFilter,
)
    ensures
        pairs_view(final(headers)@) == apply_header_filter_spec(
            pairs_view(old(headers)@),
            filter@,
        ),
{
    let ghost start = pairs_view(headers@);
    let rn = filter.remove.len();
    let mut i: usize = 0;
    proof {
        assert(filter@.remove.skip(0) =~= filter@.remove);
    }
    while i < rn
        invariant
            i <= rn,
            apply_removes(start, filter@.remove) == apply_removes(
                pairs_view(headers@),
                filter@.remove.skip(i as int),
            ),
        decreases rn - i,
    {
        proof {
            assert(filter@.remove.skip(i as int)[0] == filter.remove@[i as int]@);
            assert(filter@.remove.skip(i as int).skip(1) =~= filter@.remove.skip(i + 1));
        }
        remove_header(headers, filter.remove[i].as_str());
        i += 1;
    }
    proof {
        assert(filter@.remove.skip(rn as int) =~= Seq::<Seq<char>>::empty());
    }
    let ghost after_removes = pairs_view(headers@);
    let sn = filter.set.len();
    let mut i: usize = 0;
    proof {
        assert(filter@.set.skip(0) =~= filter@.set);
    }
    while i < sn
        invariant
            i <= sn,
            apply_sets(after_removes, filter@.set) == apply_sets(
                pairs_view(headers@),
                filter@.set.skip(i as int),
            ),
        decreases sn - i,
    {
        proof {
            assert(filter@.set.skip(i as int)[0] == (
                filter.set@[i as int].name@,
                filter.set@[i as int].value@,
            ));
            assert(filter@.set.skip(i as int).skip(1) =~= filter@.set.skip(i + 1));
        }
        set_header(headers, filter.set[i].name.as_str(), filter.set[i].value.as_str());
        i += 1;
    }
    proof {
        assert(filter@.set.skip(sn as int) =~= Seq::<(Seq<char>, Seq<char>)>::empty());
    }
    let ghost after_sets = pairs_view(headers@);
    let an = filter.add.len();
    let mut i: usize = 0;
    proof {
        assert(filter@.add.skip(0) =~= filter@.add);
    }
    while i < an
        invariant
            i <= an,
            apply_adds(after_sets, filter@.add) == apply_adds(
                pairs_view(headers@),
                filter@.add.skip(i as int),
            ),
        decreases an - i,
    {
        proof {
            assert(filter@.add.skip(i as int)[0] == (
                filter.add@[i as int].name@,
                filter.add@[i as int].value@,
            ));
            assert(filter@.add.skip(i as int).skip(1) =~= filter@.add.skip(i + 1));
        }
        add_header(headers, filter.add[i].name.as_str(), filter.add[i].value.as_str());
        i += 1;
    }
    proof {
        assert(filter@.add.skip(an as int) =~= Seq::<(Seq<char>, Seq<char>)>::empty());
    }
}

} // verus!

verus! {

/// The view of an optionally matched compiled path.
pub open spec fn opt_pm_view(m: Option<&PathMatchCompiled>) -> Option<PathMatchView> {
    match m {
        Some(p) => Some(p@),
        None => None,
    }
}

/// What `ReplacePrefixMatch` rewrites the path to: with a matched prefix
/// the remainder is joined to the replacement; an exact match is a full
/// replacement; a regex or absent match falls back to the first-segment
/// heuristic; a path that no longer starts with the matched prefix is
/// left unchanged.
pub open spec fn arpm_spec(
    path: Seq<char>,
    np: Seq<char>,
    matched: Option<PathMatchView>,
) -> Seq<char> {
    match matched {
        Some(PathMatchView::Prefix(mp)) => if is_prefix_of(mp, path) {
            let remainder = path.skip(mp.len() as int);
            let trimmed = trim_trailing_slashes(np);
            if remainder.len() == 0 {
                if trimmed.len() == 0 {
                    seq!['/']
                } else {
                    trimmed
                }
            } else if remainder[0] == '/' {
                trimmed + remainder
            } else {
                trimmed + seq!['/'] + remainder
            }
        } else {
            path
        },
        Some(PathMatchView::Exact(e)) => np,
        Some(PathMatchView::Regex(p)) => heuristic_spec(path, np),
        None => heuristic_spec(path, np),
    }
}

/// Apply the `ReplacePrefixMatch` rewrite, returning the new path and a
/// note the caller may log.
pub fn apply_replace_prefix_match(
    path: &str,
    new_prefix: &str,
    matched_path: Option<&PathMatchCompiled>,
) -> (r: (String, Option<(LogLevel, String)>))
    ensures
        r.0@ == arpm_spec(path@, new_prefix@, opt_pm_view(matched_path)),
{
    match matched_path {
        Some(PathMatchCompiled::PathPrefix(matched_prefix)) => {
            if str_starts_with(path, matched_prefix.as_str()) {
                let n = path.unicode_len();
                let ml = matched_prefix.as_str().unicode_len();
                let remainder = path.substring_char(ml, n);
                proof {
                    assert(remainder@ =~= path@.skip(matched_prefix@.len() as int));
                }
                let trimmed = trim_end_slashes(new_prefix);
                let result: String;
                if remainder.unicode_len() == 0 {
                    if trimmed.unicode_len() == 0 {
                        proof {
                            reveal_strlit("/");
                            assert("/"@ =~= seq!['/']);
                        }
                        result = String::from_str("/");
                    } else {
                        result = String::from_str(trimmed);
                    }
                } else if remainder.get_char(0) == '/' {
                    let mut out = String::from_str(trimmed);
                    out.append(remainder);
                    result = out;
                } else {
                    let mut out = String::from_str(trimmed);
                    push_char(&mut out, '/');
                    out.append(remainder);
                    proof {
                        assert(out@ =~= trim_trailing_slashes(new_prefix@) + seq!['/']
                            + remainder@);
                    }
                    result = out;
                }
                let note = String::from_str("prefix replaced");
                (result, Some((LogLevel::Debug, note)))
            } else {
                let note = String::from_str("path does not start with matched prefix");
                (String::from_str(path), Some((LogLevel::Error, note)))
            }
        },
        Some(PathMatchCompiled::Exact(_)) => {
            let note = String::from_str("exact match treated as full replacement");
            (String::from_str(new_prefix), Some((LogLevel::Debug, note)))
        },
        Some(PathMatchCompiled::Regex(_)) => {
            let note = String::from_str("regex match not supported, using heuristic");
            (replace_first_segment_heuristic(path, new_prefix), Some((LogLevel::Error, note)))
        },
        None => {
            let note = String::from_str("no path match, using heuristic");
            (replace_first_segment_heuristic(path, new_prefix), Some((LogLevel::Debug, note)))
        },
    }
}

/// A path joined with an optional query string.
pub open spec fn with_query(path: Seq<char>, q: Option<Seq<char>>) -> Seq<char> {
    match q {
        Some(qq) => path + seq!['?'] + qq,
        None => path,
    }
}

/// The request headers after a URL rewrite: the `Host` header replaced
/// when the filter names a hostname.
pub open spec fn rewritten_headers(
    headers: Seq<(Seq<char>, Seq<char>)>,
    f: URLRewriteFilterView,
) -> Seq<(Seq<char>, Seq<char>)> {
    match f.hostname {
        Some(h) => set_header_spec(headers, "host"@, h),
        None => headers,
    }
}

/// The request URL after a URL rewrite: a full path replacement or a
/// prefix replacement, the query string preserved; unknown or absent
/// rewrite types leave the URL unchanged.
pub open spec fn url_after_rewrite(
    url: Seq<char>,
    f: URLRewriteFilterView,
    matched: Option<PathMatchView>,
) -> Seq<char> {
    match f.path_type {
        Some(pt) => if pt == "ReplaceFullPath"@ {
            match f.replace_full_path {
                Some(p) => with_query(p, split_query(url)),
                None => url,
            }
        } else if pt == "ReplacePrefixMatch"@ {
            match f.replace_prefix_match {
                Some(np) => with_query(arpm_spec(split_path(url), np, matched), split_query(url)),
                None => url,
            }
        } else {
            url
        },
        None => url,
    }
}

/// Apply a URL rewrite filter to the request's `Host` header and URL.
pub fn apply_url_rewrite_filter(
    headers: &mut Vec<(String, String)>,
    url: &mut String,
    filter: &URLRewriteFilter,
    matched_path: Option<&PathMatchCompiled>,
) -> (note: Option<(LogLevel, String)>)
    ensures
        pairs_view(final(headers)@) == rewritten_headers(pairs_view(old(headers)@), filter@),
        final(url)@ == url_after_rewrite(old(url)@, filter@, opt_pm_view(matched_path)),
{
    if let Some(hostname) = &filter.hostname {
        set_header(headers, "host", hostname.as_str());
    }
    let mut note: Option<(LogLevel, String)> = None;
    if let Some(path_type) = &filter.path_type {
        if str_eq(path_type.as_str(), "ReplaceFullPath") {
            if let Some(path) = &filter.replace_full_path {
                let (_, query) = extract_path_and_query(url.as_str());
                let new_url = match query {
                    Some(q) => {
                        let mut u = path.clone();
                        push_char(&mut u, '?');
                        u.append(q);
                        u
                    },
                    None => path.clone(),
                };
                proof {
                    assert(new_url@ =~= with_query(filter@.replace_full_path.get_Some_0(),
                        split_query(old(url)@)));
                }
                *url = new_url;
            }
        } else if str_eq(path_type.as_str(), "ReplacePrefixMatch") {
            if let Some(new_prefix) = &filter.replace_prefix_match {
                let (path, query) = extract_path_and_query(url.as_str());
                let (new_path, log_msg) = apply_replace_prefix_match(
                    path,
                    new_prefix.as_str(),
                    matched_path,
                );
                let new_url = match query {
                    Some(q) => {
                        let mut u = new_path;
                        push_char(&mut u, '?');
                        u.append(q);
                        u
                    },
                    None => new_path,
                };
                proof {
                    assert(new_url@ =~= with_query(
                        arpm_spec(
                            split_path(old(url)@),
                            filter@.replace_prefix_match.get_Some_0(),
                            opt_pm_view(matched_path),
                        ),
                        split_query(old(url)@),
                    ));
                }
                *url = new_url;
                note = log_msg;
            }
        } else {
            let mut m = String::from_str("Unknown path rewrite type: ");
            m.append(path_type.as_str());
            note = Some((LogLevel::Error, m));
        }
    }
    note
}

} // verus!

verus! {

/// How a vhost-tier resolution ends.
pub enum VhostResolution {
    /// A redirect filter short-circuited; the captured configuration goes
    /// to the redirect synthetic backend.
    Redirect(RedirectConfig),
    /// A route matched but no endpoint was selectable.
    InternalError,
    /// A pool key to forward to.
    Upstream(String),
}

/// What a vhost-tier resolve produced, beside its request mutations.
pub struct ResolveOutcome {
    pub decision: VhostResolution,
    /// The response-header modifier to apply at delivery, when the matched
    /// route carries one.
    pub response_filter: Option<RequestHeaderFilter>,
}

/// The scheme the redirect captures: `X-Forwarded-Proto`, else `http`.
pub open spec fn captured_scheme(headers: Seq<(Seq<char>, Seq<char>)>) -> Seq<char> {
    match header_first(headers, "x-forwarded-proto"@) {
        Some(s) => s,
        None => "http"@,
    }
}

/// The `Host` header the redirect parses, `localhost` when absent.
pub open spec fn captured_host_header(headers: Seq<(Seq<char>, Seq<char>)>) -> Seq<char> {
    match header_first(headers, "host"@) {
        Some(h) => h,
        None => "localhost"@,
    }
}

/// The port the redirect captures: from the `Host` header, else the
/// scheme's default.
pub open spec fn captured_port(headers: Seq<(Seq<char>, Seq<char>)>) -> u16 {
    match port_of(captured_host_header(headers)) {
        Some(p) => p,
        None => if captured_scheme(headers) == "https"@ {
            443u16
        } else {
            80u16
        },
    }
}

/// The matched prefix string a redirect can use: the text of an exact or
/// prefix path match; a regex yields none.
pub open spec fn matched_path_capture(pm: Option<PathMatchView>) -> Option<Seq<char>> {
    match pm {
        Some(PathMatchView::Prefix(p)) => Some(p),
        Some(PathMatchView::Exact(p)) => Some(p),
        Some(PathMatchView::Regex(r)) => None,
        None => None,
    }
}

/// Everything the redirect synthetic backend needs, captured from the
/// request at match time.
pub open spec fn redirect_capture(
    rr: RequestRedirectFilterView,
    pm: Option<PathMatchView>,
    url: Seq<char>,
    headers: Seq<(Seq<char>, Seq<char>)>,
) -> RedirectConfigView {
    RedirectConfigView {
        filter: rr,
        original_scheme: captured_scheme(headers),
        original_hostname: host_of(captured_host_header(headers)),
        original_port: captured_port(headers),
        original_path: split_path(url),
        original_query: match split_query(url) {
            Some(q) => q,
            None => Seq::empty(),
        },
        matched_path: matched_path_capture(pm),
    }
}

/// The redirect filter of a route, when it carries one.
pub open spec fn route_redirect(route: RouteEntryView) -> Option<RequestRedirectFilterView> {
    match route.filters {
        Some(f) => f.request_redirect,
        None => None,
    }
}

/// The request headers after the matched route's non-redirect filters.
pub open spec fn headers_after_filters(
    hv: Seq<(Seq<char>, Seq<char>)>,
    route: RouteEntryView,
) -> Seq<(Seq<char>, Seq<char>)> {
    match route.filters {
        Some(f) => {
            let h1 = match f.request_header_modifier {
                Some(m) => apply_header_filter_spec(hv, m),
                None => hv,
            };
            match f.url_rewrite {
                Some(u) => rewritten_headers(h1, u),
                None => h1,
            }
        },
        None => hv,
    }
}

/// The request URL after the matched route's URL rewrite.
pub open spec fn url_after_filters(url: Seq<char>, route: RouteEntryView) -> Seq<char> {
    match route.filters {
        Some(f) => match f.url_rewrite {
            Some(u) => url_after_rewrite(url, u, route.path_match),
            None => url,
        },
        None => url,
    }
}

/// Sum of the weights of a backend list, by view.
pub open spec fn total_weight_pairs(bs: Seq<(Seq<char>, u32)>) -> int
    decreases bs.len(),
{
    if bs.len() == 0 {
        0int
    } else {
        total_weight_pairs(bs.drop_last()) + bs.last().1
    }
}

pub proof fn lemma_total_weight_pairs_nonneg(bs: Seq<(Seq<char>, u32)>)
    ensures
        total_weight_pairs(bs) >= 0,
    decreases bs.len(),
{
    if bs.len() > 0 {
        lemma_total_weight_pairs_nonneg(bs.drop_last());
    }
}

/// The weight sum is the same through the view.
pub proof fn lemma_total_weight_view(bs: Seq<WeightedBackendRef>)
    ensures
        total_weight_pairs(crate::director::backends_view(bs)) == total_weight(bs),
    decreases bs.len(),
{
    let bv = crate::director::backends_view(bs);
    if bs.len() > 0 {
        lemma_total_weight_view(bs.drop_last());
        assert(crate::director::backends_view(bs.drop_last()) =~= bv.drop_last());
        assert(bv.last() == (bs.last().key@, bs.last().weight));
    } else {
        assert(bv.len() == 0);
    }
}

/// The response-header modifier of a route, when it carries one.
pub open spec fn route_response_filter(route: RouteEntryView) -> Option<RequestHeaderFilterView> {
    match route.filters {
        Some(f) => f.response_header_modifier,
        None => None,
    }
}

/// Director for a single virtual host: its priority-sorted routes and its
/// statistics. The pool and the synthetic backends live with the root
/// director.
#[derive(Debug)]
pub struct VhostDirector {
    pub hostname: String,
    pub routes: Vec<RouteEntry>,
    pub stats: VhostStats,
}

impl VhostDirector {
    /// Every route's backend list is small enough to sum in a u64, and the
    /// stats are well-formed.
    pub open spec fn wf(&self) -> bool {
        &&& (forall|i: int|
            0 <= i < self.routes@.len() ==> (#[trigger] self.routes@[i]).backends@.len()
                < 0x1_0000_0000)
        &&& self.stats.wf()
    }

    /// Create a new vhost director over priority-sorted routes.
    pub fn new(hostname: String, routes: Vec<RouteEntry>) -> (r: VhostDirector)
        ensures
            r.hostname == hostname,
            r.routes == routes,
            r.stats.total_requests == 0,
            r.stats.backend_selections@.len() == 0,
            r.stats.last_request is None,
            r.stats.wf(),
    {
        VhostDirector { hostname, routes, stats: VhostStats::new() }
    }

    /// The hostname this director serves.
    pub fn hostname(&self) -> (r: &str)
        ensures
            r@ == self.hostname@,
    {
        self.hostname.as_str()
    }

    /// The statistics of this director.
    pub fn stats(&self) -> (r: &VhostStats)
        ensures
            r == &self.stats,
    {
        &self.stats
    }

    /// Healthy iff some route has a backend or a filter.
    pub open spec fn has_backends_spec(&self) -> bool {
        exists|i: int|
            0 <= i < self.routes@.len() && ((#[trigger] self.routes@[i]).backends@.len() > 0
                || self.routes@[i].filters is Some)
    }

    /// Whether any route has backends or filters; routes with redirect
    /// filters but no backends still count as healthy.
    pub fn has_backends(&self) -> (r: bool)
        ensures
            r == self.has_backends_spec(),
    {
        let n = self.routes.len();
        let mut i: usize = 0;
        while i < n
            invariant
                i <= n,
                n == self.routes@.len(),
                forall|j: int|
                    0 <= j < i ==> !((#[trigger] self.routes@[j]).backends@.len() > 0
                        || self.routes@[j].filters is Some),
            decreases n - i,
        {
            if self.routes[i].backends.len() > 0 || self.routes[i].filters.is_some() {
                return true;
            }
            i += 1;
        }
        false
    }

    /// All backend keys used by this director's routes.
    pub fn backend_keys(&self) -> (r: Vec<String>)
        ensures
            forall|k: Seq<char>|
                crate::backend_pool::key_listed(r@, k) <==> crate::director::routes_reference(
                    routes_view(self.routes@),
                    k,
                ),
    {
        let mut out: Vec<String> = Vec::new();
        crate::director::collect_route_keys(&self.routes, &mut out);
        out
    }

    /// Resolve one request against this vhost's routes: match in priority
    /// order; a redirect filter short-circuits with the captured redirect
    /// configuration; otherwise the header and URL filters are applied to
    /// the request, an endpoint is selected by weighted draw and recorded
    /// in the stats. `None` means no route matched. A matched route with
    /// no selectable endpoint ends as `InternalError`.
    #[verifier::loop_isolation(false)]
    pub fn resolve(
        &mut self,
        url: &mut String,
        method: &str,
        headers: &mut Vec<(String, String)>,
        now: u64,
    ) -> (r: Option<ResolveOutcome>)
        requires
            old(self).wf(),
        ensures
            final(self).wf(),
            final(self).hostname == old(self).hostname,
            final(self).routes == old(self).routes,
            (r matches Some(o) ==> o.decision matches VhostResolution::Upstream(key) ==> {
                &&& final(self).stats.total_requests == (if old(self).stats.total_requests
                    < u64::MAX {
                    old(self).stats.total_requests + 1
                } else {
                    u64::MAX as int
                })
                &&& final(self).stats.last_request == Some(now)
                &&& (old(self).stats.total_requests < u64::MAX && sel_count(
                    old(self).stats.backend_selections@,
                    key@,
                ) < u64::MAX ==> sel_count(final(self).stats.backend_selections@, key@)
                    == sel_count(old(self).stats.backend_selections@, key@) + 1)
                &&& (forall|k: Seq<char>|
                    k != key@ ==> sel_count(final(self).stats.backend_selections@, k) == sel_count(
                        old(self).stats.backend_selections@,
                        k,
                    ))
            }),
            ({
                let rv = routes_view(old(self).routes@);
                let path = split_path(old(url)@);
                let q = split_query(old(url)@);
                let hv = pairs_view(old(headers)@);
                let fm = first_match_idx(rv, path, method@, hv, q);
                &&& (r is None <==> fm == -1)
                &&& (fm == -1 ==> final(headers)@ == old(headers)@ && final(url)@ == old(url)@
                    && final(self).stats == old(self).stats)
                &&& (fm >= 0 ==> {
                    let route = rv[fm];
                    match route_redirect(route) {
                        Some(rr) => {
                            &&& (r matches Some(o) && o.decision matches VhostResolution::Redirect(
                                rc,
                            ) && rc@ == redirect_capture(rr, route.path_match, old(url)@, hv))
                            &&& (r matches Some(o) && o.response_filter is None)
                            &&& final(headers)@ == old(headers)@
                            &&& final(url)@ == old(url)@
                            &&& final(self).stats == old(self).stats
                        },
                        None => {
                            &&& pairs_view(final(headers)@) == headers_after_filters(hv, route)
                            &&& final(url)@ == url_after_filters(old(url)@, route)
                            &&& (r matches Some(o) && (match route_response_filter(route) {
                                Some(mv) => o.response_filter matches Some(m) && m@ == mv,
                                None => o.response_filter is None,
                            }))
                            &&& (route.backends.len() == 0 || (route.backends.len() != 1
                                && total_weight_pairs(route.backends) == 0) ==> (r matches Some(o)
                                && o.decision is InternalError && final(self).stats == old(
                                self,
                            ).stats))
                            &&& (route.backends.len() == 1 || (route.backends.len() > 1
                                && total_weight_pairs(route.backends) > 0) ==> (r matches Some(o)
                                && o.decision matches VhostResolution::Upstream(key) && (exists|
                                    i: int,
                                |
                                    0 <= i < route.backends.len() && key@ == (
                                    #[trigger] route.backends[i]).0)))
                        },
                    }
                })
            }),
    {
        let ghost rv = routes_view(self.routes@);
        let ghost hv = pairs_view(headers@);
        let (path_b, query_b) = extract_path_and_query(url.as_str());
        let path_owned = String::from_str(path_b);
        let query_owned: Option<String> = match query_b {
            Some(q) => Some(String::from_str(q)),
            None => None,
        };
        let query_deref: Option<&str> = match &query_owned {
            Some(q) => Some(q.as_str()),
            None => None,
        };
        proof {
            assert(opt_q_view(query_deref) == split_query(url@));
        }
        let m = match match_routes(&self.routes, path_owned.as_str(), method, headers, query_deref) {
            Some(m) => m,
            None => {
                return None;
            },
        };
        let ghost fm = m.route_index as int;
        let ghost route = rv[fm];
        // RequestRedirect short-circuits everything else.
        let redirect: Option<RequestRedirectFilter> = match m.filters {
            Some(f) => match &f.request_redirect {
                Some(rr) => Some(clone_request_redirect(rr)),
                None => None,
            },
            None => None,
        };
        if let Some(rr) = redirect {
            let scheme: String = match header_lookup(headers, "x-forwarded-proto") {
                Some(s) => s.clone(),
                None => String::from_str("http"),
            };
            let host_header: String = match header_lookup(headers, "host") {
                Some(h) => h.clone(),
                None => String::from_str("localhost"),
            };
            let (host_part, port_opt) = parse_host_and_port(host_header.as_str());
            let port: u16 = match port_opt {
                Some(p) => p,
                None => {
                    if str_eq(scheme.as_str(), "https") {
                        443
                    } else {
                        80
                    }
                },
            };
            let matched_path_str: Option<String> = match m.matched_path {
                Some(pm) => match pm {
                    PathMatchCompiled::PathPrefix(prefix) => Some(prefix.clone()),
                    PathMatchCompiled::Exact(p) => Some(p.clone()),
                    PathMatchCompiled::Regex(_) => None,
                },
                None => None,
            };
            let original_query: String = match &query_owned {
                Some(q) => q.clone(),
                None => String::new(),
            };
            let config = RedirectConfig {
                filter: rr,
                original_scheme: scheme,
                original_hostname: String::from_str(host_part),
                original_port: port,
                original_path: path_owned,
                original_query,
                matched_path: matched_path_str,
            };
            proof {
                assert(config@ =~= redirect_capture(
                    route_redirect(route).get_Some_0(),
                    route.path_match,
                    url@,
                    hv,
                ));
            }
            return Some(
                ResolveOutcome { decision: VhostResolution::Redirect(config), response_filter: None },
            );
        }
        // Apply the non-redirect filters.
        let response_filter: Option<RequestHeaderFilter> = match m.filters {
            Some(f) => {
                if let Some(rhm) = &f.request_header_modifier {
                    apply_request_header_filter(headers, rhm);
                }
                if let Some(ur) = &f.url_rewrite {
                    let _ = apply_url_rewrite_filter(headers, url, ur, m.matched_path);
                }
                match &f.response_header_modifier {
                    Some(rm) => Some(clone_header_filter(rm)),
                    None => None,
                }
            },
            None => None,
        };
        proof {
            assert(*m.filters == old(self).routes@[fm].filters);
            assert(route.filters == opt_filters_view(old(self).routes@[fm].filters));
            assert(opt_pm_view(m.matched_path) == route.path_match);
            assert(route.backends == crate::director::backends_view(
                old(self).routes@[fm].backends@,
            ));
            lemma_total_weight_view(old(self).routes@[fm].backends@);
            assert(pairs_view(headers@) == headers_after_filters(hv, route));
            assert(url@ == url_after_filters(old(url)@, route));
            assert(match route_response_filter(route) {
                Some(mv) => response_filter matches Some(mm) && mm@ == mv,
                None => response_filter is None,
            });
        }
        // Weighted endpoint selection.
        let picked = select_backend_weighted(m.backends);
        match picked {
            Some(b) => {
                let key = b.key.clone();
                proof {
                    let i = choose|i: int| 0 <= i < m.backends@.len() && *b == m.backends@[i];
                    assert(route.backends[i] == (m.backends@[i].key@, m.backends@[i].weight));
                    assert(0 <= i < route.backends.len() && key@ == (
                    #[trigger] route.backends[i]).0);
                }
                self.stats.record_request(key.as_str(), now);
                Some(
                    ResolveOutcome {
                        decision: VhostResolution::Upstream(key),
                        response_filter,
                    },
                )
            },
            None => {
                Some(ResolveOutcome { decision: VhostResolution::InternalError, response_filter })
            },
        }
    }
}

} // verus!

verus! {

/// `s` padded with spaces on the right to at least `n` characters.
pub open spec fn pad_to(s: Seq<char>, n: int) -> Seq<char> {
    if s.len() >= n {
        s
    } else {
        s + Seq::new((n - s.len()) as nat, |i: int| ' ')
    }
}

/// Pad a string with spaces on the right to at least `width` characters.
#[verifier::loop_isolation(false)]
pub fn pad_right(s: &str, width: usize) -> (r: String)
    ensures
        r@ == pad_to(s@, width as int),
{
    let mut out = String::from_str(s);
    let n = s.unicode_len();
    if n >= width {
        return out;
    }
    let mut k: usize = 0;
    while k < width - n
        invariant
            n < width,
            k <= width - n,
            out@ == s@ + Seq::new(k as nat, |i: int| ' '),
        decreases width - n - k,
    {
        push_char(&mut out, ' ');
        proof {
            assert(out@ =~= s@ + Seq::new((k + 1) as nat, |i: int| ' '));
        }
        k += 1;
    }
    out
}

/// One line of the per-backend breakdown in the detailed report.
pub open spec fn detailed_entry_line(e: (String, u64), total: u64) -> Seq<char> {
    "    "@ + e.0@ + " - "@ + crate::strutil::dec_str(e.1 as nat) + " selections ("@
        + crate::format::percentage_text(e.1, total) + ")\n"@
}

/// The per-backend breakdown lines, in order.
pub open spec fn detailed_entries(entries: Seq<(String, u64)>, total: u64) -> Seq<char>
    decreases entries.len(),
{
    if entries.len() == 0 {
        Seq::empty()
    } else {
        detailed_entries(entries.drop_last(), total) + detailed_entry_line(entries.last(), total)
    }
}

impl VhostDirector {
    /// The health word of the report.
    pub open spec fn health_text(&self) -> Seq<char> {
        if self.has_backends_spec() {
            "healthy"@
        } else {
            "sick"@
        }
    }

    /// Brief one-line report: name, admin, health and total requests.
    pub fn list_brief(&self) -> (r: String)
        ensures
            r@ == "ghost."@ + pad_to(self.hostname@, 30) + " auto     "@ + pad_to(
                self.health_text(),
                8,
            ) + " "@ + crate::strutil::dec_str(self.stats.total_requests as nat) + "\n"@,
    {
        let health: &str = if self.has_backends() {
            "healthy"
        } else {
            "sick"
        };
        let mut out = String::from_str("ghost.");
        out.append(pad_right(self.hostname.as_str(), 30).as_str());
        out.append(" auto     ");
        out.append(pad_right(health, 8).as_str());
        out.append(" ");
        out.append(crate::strutil::fmt_u64(self.stats.total_requests).as_str());
        out.append("\n");
        proof {
            assert(out@ =~= "ghost."@ + pad_to(self.hostname@, 30) + " auto     "@ + pad_to(
                self.health_text(),
                8,
            ) + " "@ + crate::strutil::dec_str(self.stats.total_requests as nat) + "\n"@);
        }
        out
    }

    /// Detailed multi-line report: health, route count, totals, last
    /// request and the per-backend breakdown.
    #[verifier::loop_isolation(false)]
    #[verifier::rlimit(60)]
    pub fn list_detailed(&self) -> (r: String)
        ensures
            r@ == "Backend: ghost."@ + self.hostname@ + "\n  Admin: auto\n  Health: "@
                + self.health_text() + "\n  Routes: "@ + crate::strutil::dec_str(
                self.routes@.len() as nat,
            ) + "\n  Total requests: "@ + crate::strutil::dec_str(
                self.stats.total_requests as nat,
            ) + "\n"@ + (match self.stats.last_request {
                Some(t) => "  Last request: "@ + crate::format::rfc3339_of(t) + "\n"@,
                None => Seq::<char>::empty(),
            }) + (if self.stats.backend_selections@.len() > 0 {
                "  Backends:\n"@ + detailed_entries(
                    self.stats.backend_selections@,
                    self.stats.total_requests,
                )
            } else {
                Seq::<char>::empty()
            }) + "\n"@,
    {
        let health: &str = if self.has_backends() {
            "healthy"
        } else {
            "sick"
        };
        let mut out = String::from_str("Backend: ghost.");
        out.append(self.hostname.as_str());
        out.append("\n  Admin: auto\n  Health: ");
        out.append(health);
        out.append("\n  Routes: ");
        out.append(crate::strutil::fmt_u64(self.routes.len() as u64).as_str());
        out.append("\n  Total requests: ");
        let total = self.stats.total_requests;
        out.append(crate::strutil::fmt_u64(total).as_str());
        out.append("\n");
        if let Some(t) = self.stats.last_request {
            out.append("  Last request: ");
            out.append(crate::format::format_timestamp(Some(t)).as_str());
            out.append("\n");
        }
        let ghost head = out@;
        let n = self.stats.backend_selections.len();
        if n > 0 {
            out.append("  Backends:\n");
            let mut i: usize = 0;
            proof {
                assert(self.stats.backend_selections@.subrange(0, 0) =~= Seq::<
                    (String, u64),
                >::empty());
            }
            while i < n
                invariant
                    i <= n,
                    out@ == head + "  Backends:\n"@ + detailed_entries(
                        self.stats.backend_selections@.subrange(0, i as int),
                        total,
                    ),
                decreases n - i,
            {
                let entry = &self.stats.backend_selections[i];
                out.append("    ");
                out.append(entry.0.as_str());
                out.append(" - ");
                out.append(crate::strutil::fmt_u64(entry.1).as_str());
                out.append(" selections (");
                out.append(crate::format::format_percentage(entry.1, total).as_str());
                out.append(")\n");
                proof {
                    let pre = self.stats.backend_selections@.subrange(0, i + 1);
                    assert(pre.drop_last() =~= self.stats.backend_selections@.subrange(
                        0,
                        i as int,
                    ));
                    assert(pre.last() == self.stats.backend_selections@[i as int]);
                    assert(out@ =~= head + "  Backends:\n"@ + detailed_entries(pre, total));
                }
                i += 1;
            }
            proof {
                assert(self.stats.backend_selections@.subrange(0, n as int)
                    =~= self.stats.backend_selections@);
            }
        }
        out.append("\n");
        proof {
            assert(out@ =~= "Backend: ghost."@ + self.hostname@ + "\n  Admin: auto\n  Health: "@
                + self.health_text() + "\n  Routes: "@ + crate::strutil::dec_str(
                self.routes@.len() as nat,
            ) + "\n  Total requests: "@ + crate::strutil::dec_str(
                self.stats.total_requests as nat,
            ) + "\n"@ + (match self.stats.last_request {
                Some(t) => "  Last request: "@ + crate::format::rfc3339_of(t) + "\n"@,
                None => Seq::<char>::empty(),
            }) + (if self.stats.backend_selections@.len() > 0 {
                "  Backends:\n"@ + detailed_entries(
                    self.stats.backend_selections@,
                    self.stats.total_requests,
                )
            } else {
                Seq::<char>::empty()
            }) + "\n"@);
        }
        out
    }

    /// JSON report object: name, type, admin, health, route count, totals,
    /// last request and the per-backend array.
    pub fn list_json(&self) -> (r: String)
        ensures
            r@ == "{\"name\":\"ghost."@ + self.hostname@
                + "\",\"type\":\"vhost_director\",\"admin\":\"auto\",\"health\":\""@
                + self.health_text() + "\",\"routes\":"@ + crate::strutil::dec_str(
                self.routes@.len() as nat,
            ) + ",\"total_requests\":"@ + crate::strutil::dec_str(
                self.stats.total_requests as nat,
            ) + ",\"last_request\":"@ + (match self.stats.last_request {
                Some(t) => seq!['"'] + crate::format::rfc3339_of(t) + seq!['"'],
                None => "null"@,
            }) + ",\"backends\":"@ + seq!['['] + crate::format::selections_json_text(
                self.stats.backend_selections@,
                self.stats.total_requests,
            ) + seq![']'] + seq!['}'],
    {
        let health: &str = if self.has_backends() {
            "healthy"
        } else {
            "sick"
        };
        let mut out = String::from_str("{\"name\":\"ghost.");
        out.append(self.hostname.as_str());
        out.append("\",\"type\":\"vhost_director\",\"admin\":\"auto\",\"health\":\"");
        out.append(health);
        out.append("\",\"routes\":");
        out.append(crate::strutil::fmt_u64(self.routes.len() as u64).as_str());
        out.append(",\"total_requests\":");
        out.append(crate::strutil::fmt_u64(self.stats.total_requests).as_str());
        out.append(",\"last_request\":");
        match self.stats.last_request {
            Some(t) => {
                push_char(&mut out, '"');
                out.append(crate::format::format_timestamp(Some(t)).as_str());
                push_char(&mut out, '"');
            },
            None => {
                out.append("null");
            },
        }
        out.append(",\"backends\":");
        out.append(
            crate::format::format_backend_selections_json(
                &self.stats.backend_selections,
                self.stats.total_requests,
            ).as_str(),
        );
        push_char(&mut out, '}');
        proof {
            assert(out@ =~= "{\"name\":\"ghost."@ + self.hostname@
                + "\",\"type\":\"vhost_director\",\"admin\":\"auto\",\"health\":\""@
                + self.health_text() + "\",\"routes\":"@ + crate::strutil::dec_str(
                self.routes@.len() as nat,
            ) + ",\"total_requests\":"@ + crate::strutil::dec_str(
                self.stats.total_requests as nat,
            ) + ",\"last_request\":"@ + (match self.stats.last_request {
                Some(t) => seq!['"'] + crate::format::rfc3339_of(t) + seq!['"'],
                None => "null"@,
            }) + ",\"backends\":"@ + seq!['['] + crate::format::selections_json_text(
                self.stats.backend_selections@,
                self.stats.total_requests,
            ) + seq![']'] + seq!['}']);
        }
        out
    }
}

} // verus!
