//! Request-side primitives of the director: URL splitting, query-string
//! parsing, Gateway-API path-prefix matching, wildcard hostname matching,
//! host/port parsing and weighted backend selection.

use vstd::prelude::*;
use vstd::string::*;
use crate::strutil::{
    find_idx, rfind_idx, lemma_find_idx, lemma_rfind_idx, contains_char, str_find, str_rfind,
    str_contains_char, str_eq, str_starts_with, str_ends_with, is_prefix_of, is_suffix_of,
    parse_u16, all_digits, dec_value,
};
use crate::rng::random_below;
use crate::strutil::{lower_seq, str_to_lowercase};
use crate::config::{
    HeaderMatch, MatchType, PathMatch, PathMatchType, QueryParamMatch, RouteFilters,
    RouteFiltersView, opt_filters_view, clone_filters,
};
use crate::rex::{regex_accepts, regex_match, CompiledRegex};

verus! {

/// Backend reference with weight for routing; the key addresses the pool.
#[derive(Debug, Clone)]
pub struct WeightedBackendRef {
    /// Backend pool key (`address:port`).
    pub key: String,
    /// Weight for random selection.
    pub weight: u32,
}

/// Path part of a request URL: everything before the first `?` (or `#` when
/// no `?` exists), with an empty path standing in as `/`.
pub open spec fn split_path(url: Seq<char>) -> Seq<char> {
    let q = find_idx(url, '?');
    let p = if q >= 0 {
        url.subrange(0, q)
    } else {
        let f = find_idx(url, '#');
        if f >= 0 {
            url.subrange(0, f)
        } else {
            url
        }
    };
    if p.len() == 0 {
        seq!['/']
    } else {
        p
    }
}

/// Query part of a request URL: between the first `?` and a following `#`.
pub open spec fn split_query(url: Seq<char>) -> Option<Seq<char>> {
    let q = find_idx(url, '?');
    if q >= 0 {
        let rest = url.skip(q + 1);
        let f = find_idx(rest, '#');
        if f >= 0 {
            Some(rest.subrange(0, f))
        } else {
            Some(rest)
        }
    } else {
        None
    }
}

/// Extract the path from a URL, dropping query string and fragment.
pub fn extract_path(url: &str) -> (r: &str)
    ensures
        r@ == split_path(url@),
{
    let (path, _) = extract_path_and_query(url);
    path
}

/// Extract path and query string from a URL.
pub fn extract_path_and_query(url: &str) -> (r: (&str, Option<&str>))
    ensures
        r.0@ == split_path(url@),
        match r.1 {
            Some(q) => split_query(url@) == Some(q@),
            None => split_query(url@) is None,
        },
{
    let n = url.unicode_len();
    match str_find(url, '?') {
        Some(q) => {
            let path = url.substring_char(0, q);
            let rest = url.substring_char(q + 1, n);
            proof {
                assert(rest@ =~= url@.skip(q + 1));
            }
            let query = match str_find(rest, '#') {
                Some(f) => rest.substring_char(0, f),
                None => rest,
            };
            if path.unicode_len() == 0 {
                proof {
                    reveal_strlit("/");
                    assert("/"@ =~= seq!['/']);
                }
                ("/", Some(query))
            } else {
                (path, Some(query))
            }
        },
        None => {
            let path = match str_find(url, '#') {
                Some(f) => url.substring_char(0, f),
                None => url,
            };
            proof {
                if find_idx(url@, '#') < 0 {
                    assert(url@.subrange(0, n as int) =~= url@);
                }
            }
            if path.unicode_len() == 0 {
                proof {
                    reveal_strlit("/");
                    assert("/"@ =~= seq!['/']);
                }
                ("/", None)
            } else {
                (path, None)
            }
        },
    }
}

/// One `key=value` pair of a query string; a piece without `=` contributes
/// nothing.
pub open spec fn qs_pair_of(p: Seq<char>) -> Seq<(Seq<char>, Seq<char>)> {
    let e = find_idx(p, '=');
    if e >= 0 {
        seq![(p.subrange(0, e), p.skip(e + 1))]
    } else {
        Seq::empty()
    }
}

/// All `key=value` pairs of an `&`-separated query string, in order and with
/// duplicates kept.
pub open spec fn qs_pairs(q: Seq<char>) -> Seq<(Seq<char>, Seq<char>)>
    decreases q.len(),
{
    let a = find_idx(q, '&');
    if 0 <= a < q.len() {
        qs_pair_of(q.subrange(0, a)) + qs_pairs(q.skip(a + 1))
    } else {
        qs_pair_of(q)
    }
}

/// First value bound to `name`, duplicates resolved first-value-wins.
pub open spec fn qs_first(pairs: Seq<(Seq<char>, Seq<char>)>, name: Seq<char>) -> Option<Seq<char>>
    decreases pairs.len(),
{
    if pairs.len() == 0 {
        None
    } else if pairs[0].0 == name {
        Some(pairs[0].1)
    } else {
        qs_first(pairs.skip(1), name)
    }
}

pub open spec fn pairs_view(s: Seq<(String, String)>) -> Seq<(Seq<char>, Seq<char>)> {
    s.map_values(|p: (String, String)| (p.0@, p.1@))
}

/// Parse one `key=value` piece and append it to `out`.
fn push_pair(out: &mut Vec<(String, String)>, piece: &str)
    ensures
        pairs_view(final(out)@) == pairs_view(old(out)@) + qs_pair_of(piece@),
{
    let n = piece.unicode_len();
    match str_find(piece, '=') {
        Some(e) => {
            let key = piece.substring_char(0, e);
            let value = piece.substring_char(e + 1, n);
            proof {
                assert(value@ =~= piece@.skip(e + 1));
            }
            out.push((String::from_str(key), String::from_str(value)));
            proof {
                assert(pairs_view(out@) =~= pairs_view(old(out)@) + qs_pair_of(piece@));
            }
        },
        None => {
            proof {
                assert(pairs_view(out@) =~= pairs_view(old(out)@) + qs_pair_of(piece@));
            }
        },
    }
}

/// Parse a query string into its `key=value` pairs, kept in order.
pub fn parse_query_string(query: &str) -> (r: Vec<(String, String)>)
    ensures
        pairs_view(r@) == qs_pairs(query@),
{
    let mut out: Vec<(String, String)> = Vec::new();
    let mut rest: &str = query;
    proof {
        assert(pairs_view(out@) =~= Seq::<(Seq<char>, Seq<char>)>::empty());
    }
    loop
        invariant
            pairs_view(out@) + qs_pairs(rest@) == qs_pairs(query@),
        decreases rest@.len(),
    {
        let n = rest.unicode_len();
        proof {
            lemma_find_idx(rest@, '&');
        }
        match str_find(rest, '&') {
            Some(a) => {
                let piece = rest.substring_char(0, a);
                let tail = rest.substring_char(a + 1, n);
                proof {
                    assert(tail@ =~= rest@.skip(a + 1));
                }
                let ghost before = pairs_view(out@);
                push_pair(&mut out, piece);
                proof {
                    assert((before + qs_pair_of(piece@)) + qs_pairs(tail@) =~= before + (qs_pair_of(
                        piece@,
                    ) + qs_pairs(tail@)));
                }
                rest = tail;
            },
            None => {
                push_pair(&mut out, rest);
                return out;
            },
        }
    }
}

/// First value of `name` among parsed query pairs.
pub fn query_first_value<'a>(pairs: &'a Vec<(String, String)>, name: &str) -> (r: Option<
    &'a String,
>)
    ensures
        match r {
            Some(v) => qs_first(pairs_view(pairs@), name@) == Some(v@),
            None => qs_first(pairs_view(pairs@), name@) is None,
        },
{
    let n = pairs.len();
    let mut i: usize = 0;
    proof {
        assert(pairs_view(pairs@).skip(0) =~= pairs_view(pairs@));
    }
    while i < n
        invariant
            n == pairs@.len(),
            i <= n,
            qs_first(pairs_view(pairs@), name@) == qs_first(
                pairs_view(pairs@).skip(i as int),
                name@,
            ),
        decreases n - i,
    {
        let ghost tail = pairs_view(pairs@).skip(i as int);
        proof {
            assert(tail[0] == (pairs@[i as int].0@, pairs@[i as int].1@));
        }
        if str_eq(pairs[i].0.as_str(), name) {
            return Some(&pairs[i].1);
        }
        proof {
            assert(tail.skip(1) =~= pairs_view(pairs@).skip(i + 1));
        }
        i += 1;
    }
    proof {
        assert(pairs_view(pairs@).skip(n as int) =~= Seq::<(Seq<char>, Seq<char>)>::empty());
    }
    None
}

/// Gateway-API element-wise path-prefix match: `/` matches everything; a
/// prefix matches itself and any extension that continues at a `/` boundary.
pub open spec fn path_prefix_matches(prefix: Seq<char>, path: Seq<char>) -> bool {
    if prefix == seq!['/'] {
        true
    } else if path == prefix {
        true
    } else {
        &&& is_prefix_of(prefix, path)
        &&& path.len() > prefix.len()
        &&& (prefix.len() > 0 && prefix[prefix.len() - 1] == '/' || path[prefix.len() as int]
            == '/')
    }
}

/// Match a path against a prefix, element-wise on `/` boundaries.
pub fn matches_path_prefix(prefix: &str, path: &str) -> (r: bool)
    ensures
        r == path_prefix_matches(prefix@, path@),
{
    proof {
        reveal_strlit("/");
        assert("/"@ =~= seq!['/']);
    }
    if str_eq(prefix, "/") {
        proof {
            assert(prefix@ =~= seq!['/']);
        }
        return true;
    }
    if str_eq(path, prefix) {
        return true;
    }
    if !str_starts_with(path, prefix) {
        return false;
    }
    let pl = prefix.unicode_len();
    let sl = path.unicode_len();
    if sl <= pl {
        proof {
            assert(path@ =~= prefix@);
        }
        return true;
    }
    if pl > 0 && prefix.get_char(pl - 1) == '/' {
        return true;
    }
    path.get_char(pl) == '/'
}

/// Wildcard hostname match: `*.X` matches exactly one extra non-empty label
/// with no further dot before `.X`.
pub open spec fn wildcard_matches(pattern: Seq<char>, host: Seq<char>) -> bool {
    &&& pattern.len() >= 2
    &&& pattern[0] == '*'
    &&& pattern[1] == '.'
    &&& {
        let suffix = pattern.skip(1);
        &&& host.len() > suffix.len()
        &&& is_suffix_of(suffix, host)
        &&& (forall|i: int| 0 <= i < host.len() - suffix.len() ==> #[trigger] host[i] != '.')
    }
}

/// Check a `*.`-wildcard pattern against a hostname.
pub fn matches_wildcard(pattern: &str, host: &str) -> (r: bool)
    ensures
        r == wildcard_matches(pattern@, host@),
{
    let pl = pattern.unicode_len();
    if pl < 2 {
        return false;
    }
    if !(pattern.get_char(0) == '*' && pattern.get_char(1) == '.') {
        return false;
    }
    let suffix = pattern.substring_char(1, pl);
    proof {
        assert(suffix@ =~= pattern@.skip(1));
    }
    if !str_ends_with(host, suffix) {
        return false;
    }
    let hl = host.unicode_len();
    let sl = suffix.unicode_len();
    if hl <= sl {
        return false;
    }
    let head = host.substring_char(0, hl - sl);
    if str_contains_char(head, '.') {
        proof {
            let i = choose|i: int| 0 <= i < head@.len() && head@[i] == '.';
            assert(host@[i] == '.');
        }
        return false;
    }
    proof {
        assert forall|i: int| 0 <= i < host@.len() - suffix@.len() implies #[trigger] host@[i]
            != '.' by {
            assert(head@[i] == host@[i]);
            assert(head@[i] != '.');
        }
    }
    true
}

/// Host part of a `Host` header value, IPv6-bracket aware.
pub open spec fn host_of(h: Seq<char>) -> Seq<char> {
    if h.len() > 0 && h[0] == '[' && find_idx(h, ']') >= 0 {
        h.subrange(0, find_idx(h, ']') + 1)
    } else {
        let c = rfind_idx(h, ':');
        if c >= 0 && valid_port_digits(h.skip(c + 1)) {
            h.subrange(0, c)
        } else {
            h
        }
    }
}

/// Port part of a `Host` header value, IPv6-bracket aware.
pub open spec fn port_of(h: Seq<char>) -> Option<u16> {
    if h.len() > 0 && h[0] == '[' && find_idx(h, ']') >= 0 {
        let rest = h.skip(find_idx(h, ']') + 1);
        if rest.len() > 0 && rest[0] == ':' && valid_port_digits(rest.skip(1)) {
            Some(dec_value(rest.skip(1)) as u16)
        } else {
            None
        }
    } else {
        let c = rfind_idx(h, ':');
        if c >= 0 && valid_port_digits(h.skip(c + 1)) {
            Some(dec_value(h.skip(c + 1)) as u16)
        } else {
            None
        }
    }
}

/// Digit string that fits a `u16`.
pub open spec fn valid_port_digits(s: Seq<char>) -> bool {
    s.len() > 0 && all_digits(s) && dec_value(s) <= u16::MAX
}

/// Parse hostname and optional port from a `Host` header, handling the
/// bracketed IPv6 form.
pub fn parse_host_and_port(host_header: &str) -> (r: (&str, Option<u16>))
    ensures
        r.0@ == host_of(host_header@),
        r.1 == port_of(host_header@),
{
    let n = host_header.unicode_len();
    if n > 0 && host_header.get_char(0) == '[' {
        if let Some(b) = str_find(host_header, ']') {
            let host = host_header.substring_char(0, b + 1);
            let rest = host_header.substring_char(b + 1, n);
            proof {
                assert(rest@ =~= host_header@.skip(b + 1));
            }
            if rest.unicode_len() > 0 && rest.get_char(0) == ':' {
                let digits = rest.substring_char(1, rest.unicode_len());
                proof {
                    assert(digits@ =~= rest@.skip(1));
                }
                match parse_u16(digits) {
                    Some(p) => {
                        return (host, Some(p));
                    },
                    None => {
                        return (host, None);
                    },
                }
            }
            return (host, None);
        }
    }
    match str_rfind(host_header, ':') {
        Some(c) => {
            let digits = host_header.substring_char(c + 1, n);
            proof {
                assert(digits@ =~= host_header@.skip(c + 1));
            }
            match parse_u16(digits) {
                Some(p) => (host_header.substring_char(0, c), Some(p)),
                None => (host_header, None),
            }
        },
        None => (host_header, None),
    }
}

/// Sum of the weights of a backend list.
pub open spec fn total_weight(refs: Seq<WeightedBackendRef>) -> int
    decreases refs.len(),
{
    if refs.len() == 0 {
        0int
    } else {
        total_weight(refs.drop_last()) + refs.last().weight
    }
}

/// The backend that a draw of `r` selects: the first whose cumulative weight
/// exceeds `r`.
pub open spec fn pick_index(refs: Seq<WeightedBackendRef>, r: int) -> int
    decreases refs.len(),
{
    if refs.len() == 0 {
        0int
    } else if r < refs.first().weight {
        0int
    } else {
        1 + pick_index(refs.skip(1), r - refs.first().weight)
    }
}

/// Weighted choice once a value `r` below the total weight has been drawn:
/// walk the cumulative weights and return the first backend to pass `r`.
pub fn select_backend_weighted_at(refs: &Vec<WeightedBackendRef>, r: u64) -> (out:
    &WeightedBackendRef)
    requires
        refs@.len() > 0,
        r < total_weight(refs@),
        total_weight(refs@) <= u64::MAX,
    ensures
        ({
            let i = pick_index(refs@, r as int);
            0 <= i < refs@.len() && *out == refs@[i]
        }),
{
    let n = refs.len();
    let mut cumulative: u64 = 0;
    let mut i: usize = 0;
    proof {
        assert(refs@.skip(0) =~= refs@);
        assert(refs@.subrange(0, 0) =~= Seq::<WeightedBackendRef>::empty());
    }
    loop
        invariant
            n == refs@.len(),
            i < n,
            cumulative <= r,
            r < total_weight(refs@),
            total_weight(refs@) <= u64::MAX,
            cumulative == total_weight(refs@.subrange(0, i as int)),
            total_weight(refs@) == cumulative + total_weight(refs@.skip(i as int)),
            pick_index(refs@, r as int) == i + pick_index(refs@.skip(i as int), r - cumulative),
        decreases n - i,
    {
        let w = refs[i].weight;
        proof {
            lemma_total_weight_first(refs@.skip(i as int));
            lemma_total_weight_nonneg(refs@.skip(i as int).skip(1));
            assert(refs@.skip(i as int).first() == refs@[i as int]);
        }
        if r < cumulative + (w as u64) {
            proof {
                assert(pick_index(refs@.skip(i as int), r - cumulative) == 0);
            }
            return &refs[i];
        }
        proof {
            assert(refs@.skip(i as int).skip(1) =~= refs@.skip(i + 1));
            assert(refs@.subrange(0, i + 1).drop_last() =~= refs@.subrange(0, i as int));
            assert(refs@.subrange(0, i + 1).last() == refs@[i as int]);
        }
        cumulative = cumulative + (w as u64);
        i += 1;
        proof {
            if i == n {
                assert(refs@.skip(n as int) =~= Seq::<WeightedBackendRef>::empty());
                assert(false);
            }
        }
    }
}

/// Total weight from the front: first element plus the rest.
proof fn lemma_total_weight_first(refs: Seq<WeightedBackendRef>)
    requires
        refs.len() > 0,
    ensures
        total_weight(refs) == refs.first().weight + total_weight(refs.skip(1)),
    decreases refs.len(),
{
    if refs.len() == 1 {
        assert(refs.drop_last() =~= Seq::<WeightedBackendRef>::empty());
        assert(refs.skip(1) =~= Seq::<WeightedBackendRef>::empty());
    } else {
        lemma_total_weight_first(refs.drop_last());
        assert(refs.drop_last().first() == refs.first());
        assert(refs.drop_last().skip(1) =~= refs.skip(1).drop_last());
        assert(refs.skip(1).last() == refs.last());
    }
}

pub proof fn lemma_total_weight_nonneg(refs: Seq<WeightedBackendRef>)
    ensures
        total_weight(refs) >= 0,
    decreases refs.len(),
{
    if refs.len() > 0 {
        lemma_total_weight_nonneg(refs.drop_last());
    }
}

/// Select a backend by weighted random draw. A single backend is returned
/// outright; with several, a draw below the weight sum picks the first
/// backend whose cumulative weight exceeds it; an empty list or a zero sum
/// yields `None`. Whatever the draw, the result is one of `refs`.
pub fn select_backend_weighted(refs: &Vec<WeightedBackendRef>) -> (out: Option<
    &WeightedBackendRef,
>)
    requires
        refs@.len() < 0x1_0000_0000,
    ensures
        match out {
            Some(b) => exists|i: int| 0 <= i < refs@.len() && *b == refs@[i],
            None => refs@.len() == 0 || total_weight(refs@) == 0,
        },
        refs@.len() == 0 ==> out is None,
        refs@.len() == 1 ==> out is Some,
        refs@.len() > 0 && total_weight(refs@) > 0 ==> out is Some,
        out is Some ==> refs@.len() == 1 || total_weight(refs@) > 0,
{
    let n = refs.len();
    if n == 0 {
        return None;
    }
    if n == 1 {
        let b = &refs[0];
        proof {
            assert(0 <= 0int < refs@.len() && *b == refs@[0int]);
        }
        return Some(b);
    }
    let total = total_weight_exec(refs);
    if total == 0 {
        return None;
    }
    let r = random_below(total);
    let b = select_backend_weighted_at(refs, r);
    proof {
        let i = pick_index(refs@, r as int);
        assert(0 <= i < refs@.len() && *b == refs@[i]);
    }
    Some(b)
}

/// Sum the weights of a backend list.
pub fn total_weight_exec(refs: &Vec<WeightedBackendRef>) -> (r: u64)
    requires
        refs@.len() < 0x1_0000_0000,
    ensures
        r == total_weight(refs@),
{
    proof {
        lemma_total_weight_nonneg(refs@);
    }
    let n = refs.len();
    let mut sum: u64 = 0;
    let mut i: usize = 0;
    while i < n
        invariant
            n == refs@.len(),
            n < 0x1_0000_0000,
            i <= n,
            sum == total_weight(refs@.subrange(0, i as int)),
            sum <= i * 0x1_0000_0000,
        decreases n - i,
    {
        proof {
            assert(refs@.subrange(0, i + 1).drop_last() =~= refs@.subrange(0, i as int));
            assert(refs@.subrange(0, i + 1).last() == refs@[i as int]);
        }
        let w = refs[i].weight;
        proof {
            assert(sum + w <= (i + 1) * 0x1_0000_0000) by (nonlinear_arith)
                requires
                    sum <= i * 0x1_0000_0000,
                    w < 0x1_0000_0000,
            ;
            assert((i + 1) * 0x1_0000_0000 <= 0xffff_ffff * 0x1_0000_0000) by (nonlinear_arith)
                requires
                    i + 1 <= 0xffff_ffff,
            ;
        }
        sum = sum + (w as u64);
        i += 1;
    }
    proof {
        assert(refs@.subrange(0, n as int) =~= refs@);
    }
    sum
}

} // verus!

verus! {

/// Compiled path match: the regex arm carries its pre-compiled regex.
#[derive(Debug, Clone)]
pub enum PathMatchCompiled {
    Exact(String),
    PathPrefix(String),
    Regex(CompiledRegex),
}

/// Compiled path match, by view: the regex arm reduces to its pattern text.
#[verifier::ext_equal]
pub enum PathMatchView {
    Exact(Seq<char>),
    Prefix(Seq<char>),
    Regex(Seq<char>),
}

impl View for PathMatchCompiled {
    type V = PathMatchView;

    open spec fn view(&self) -> PathMatchView {
        match self {
            PathMatchCompiled::Exact(s) => PathMatchView::Exact(s@),
            PathMatchCompiled::PathPrefix(s) => PathMatchView::Prefix(s@),
            PathMatchCompiled::Regex(re) => PathMatchView::Regex(re.pattern_view()),
        }
    }
}

/// The compiled form a path match rule takes.
pub open spec fn path_match_view_of(pm: PathMatch) -> PathMatchView {
    match pm.match_type {
        PathMatchType::Exact => PathMatchView::Exact(pm.value@),
        PathMatchType::PathPrefix => PathMatchView::Prefix(pm.value@),
        PathMatchType::RegularExpression => PathMatchView::Regex(pm.value@),
    }
}

/// What a compiled path match accepts.
pub open spec fn pm_matches(pm: PathMatchView, path: Seq<char>) -> bool {
    match pm {
        PathMatchView::Exact(v) => path == v,
        PathMatchView::Prefix(p) => path_prefix_matches(p, path),
        PathMatchView::Regex(pat) => regex_match(pat, path),
    }
}

impl PathMatchCompiled {
    /// Compile a configured path match; only an invalid regex fails.
    pub fn from_config(pm: &PathMatch) -> (r: Result<PathMatchCompiled, String>)
        ensures
            r is Ok <==> (pm.match_type is RegularExpression ==> regex_accepts(pm.value@)),
            r matches Ok(c) ==> c@ == path_match_view_of(*pm),
    {
        match pm.match_type {
            PathMatchType::Exact => Ok(PathMatchCompiled::Exact(pm.value.clone())),
            PathMatchType::PathPrefix => Ok(PathMatchCompiled::PathPrefix(pm.value.clone())),
            PathMatchType::RegularExpression => {
                match CompiledRegex::compile(pm.value.as_str()) {
                    Ok(re) => Ok(PathMatchCompiled::Regex(re)),
                    Err(e) => {
                        let mut m = String::from_str("Invalid regex pattern '");
                        m.append(pm.value.as_str());
                        m.append("': ");
                        m.append(e.as_str());
                        Err(m)
                    },
                }
            },
        }
    }

    /// Whether this path match accepts the given path.
    pub fn matches(&self, path: &str) -> (r: bool)
        ensures
            r == pm_matches(self@, path@),
    {
        match self {
            PathMatchCompiled::Exact(value) => str_eq(path, value.as_str()),
            PathMatchCompiled::PathPrefix(prefix) => matches_path_prefix(prefix.as_str(), path),
            PathMatchCompiled::Regex(re) => re.is_match(path),
        }
    }
}

/// Compiled header match; the name is stored lowercased.
#[derive(Debug, Clone)]
pub enum HeaderMatchCompiled {
    Exact { name: String, value: String },
    Regex { name: String, regex: CompiledRegex },
}

/// Compiled header match, by view.
#[verifier::ext_equal]
pub enum HeaderMatchView {
    Exact { name: Seq<char>, value: Seq<char> },
    Regex { name: Seq<char>, pattern: Seq<char> },
}

impl View for HeaderMatchCompiled {
    type V = HeaderMatchView;

    open spec fn view(&self) -> HeaderMatchView {
        match self {
            HeaderMatchCompiled::Exact { name, value } => HeaderMatchView::Exact {
                name: name@,
                value: value@,
            },
            HeaderMatchCompiled::Regex { name, regex } => HeaderMatchView::Regex {
                name: name@,
                pattern: regex.pattern_view(),
            },
        }
    }
}

/// The compiled form a header match rule takes: the name lowercased.
pub open spec fn header_match_view_of(hm: HeaderMatch) -> HeaderMatchView {
    match hm.match_type {
        MatchType::Exact => HeaderMatchView::Exact { name: lower_seq(hm.name@), value: hm.value@ },
        MatchType::RegularExpression => HeaderMatchView::Regex {
            name: lower_seq(hm.name@),
            pattern: hm.value@,
        },
    }
}

/// First request header whose lowercased name equals `name`.
pub open spec fn header_first(headers: Seq<(Seq<char>, Seq<char>)>, name: Seq<char>) -> Option<
    Seq<char>,
>
    decreases headers.len(),
{
    if headers.len() == 0 {
        None
    } else if lower_seq(headers[0].0) == name {
        Some(headers[0].1)
    } else {
        header_first(headers.skip(1), name)
    }
}

/// What a compiled header match accepts, over the request's header list.
pub open spec fn hm_matches(hm: HeaderMatchView, headers: Seq<(Seq<char>, Seq<char>)>) -> bool {
    match hm {
        HeaderMatchView::Exact { name, value } => header_first(headers, name) == Some(value),
        HeaderMatchView::Regex { name, pattern } => match header_first(headers, name) {
            Some(v) => regex_match(pattern, v),
            None => false,
        },
    }
}

/// First request header whose lowercased name equals `name` (which must
/// already be lowercase).
pub fn header_lookup<'a>(headers: &'a Vec<(String, String)>, name: &str) -> (r: Option<
    &'a String,
>)
    ensures
        match r {
            Some(v) => header_first(pairs_view(headers@), name@) == Some(v@),
            None => header_first(pairs_view(headers@), name@) is None,
        },
{
    let n = headers.len();
    let mut i: usize = 0;
    proof {
        assert(pairs_view(headers@).skip(0) =~= pairs_view(headers@));
    }
    while i < n
        invariant
            n == headers@.len(),
            i <= n,
            header_first(pairs_view(headers@), name@) == header_first(
                pairs_view(headers@).skip(i as int),
                name@,
            ),
        decreases n - i,
    {
        let ghost tail = pairs_view(headers@).skip(i as int);
        proof {
            assert(tail[0] == (headers@[i as int].0@, headers@[i as int].1@));
        }
        let lowered = str_to_lowercase(headers[i].0.as_str());
        if str_eq(lowered.as_str(), name) {
            return Some(&headers[i].1);
        }
        proof {
            assert(tail.skip(1) =~= pairs_view(headers@).skip(i + 1));
        }
        i += 1;
    }
    proof {
        assert(pairs_view(headers@).skip(n as int) =~= Seq::<(Seq<char>, Seq<char>)>::empty());
    }
    None
}

impl HeaderMatchCompiled {
    /// Compile a configured header match, lowercasing the header name; only
    /// an invalid regex fails.
    pub fn from_config(hm: &HeaderMatch) -> (r: Result<HeaderMatchCompiled, String>)
        ensures
            r is Ok <==> (hm.match_type is RegularExpression ==> regex_accepts(hm.value@)),
            r matches Ok(c) ==> c@ == header_match_view_of(*hm),
    {
        let name = str_to_lowercase(hm.name.as_str());
        match hm.match_type {
            MatchType::Exact => Ok(HeaderMatchCompiled::Exact { name, value: hm.value.clone() }),
            MatchType::RegularExpression => {
                match CompiledRegex::compile(hm.value.as_str()) {
                    Ok(re) => Ok(HeaderMatchCompiled::Regex { name, regex: re }),
                    Err(e) => {
                        let mut m = String::from_str("Invalid regex '");
                        m.append(hm.value.as_str());
                        m.append("': ");
                        m.append(e.as_str());
                        Err(m)
                    },
                }
            },
        }
    }

    /// Whether the request's headers satisfy this match.
    pub fn matches(&self, headers: &Vec<(String, String)>) -> (r: bool)
        ensures
            r == hm_matches(self@, pairs_view(headers@)),
    {
        match self {
            HeaderMatchCompiled::Exact { name, value } => {
                match header_lookup(headers, name.as_str()) {
                    Some(v) => str_eq(v.as_str(), value.as_str()),
                    None => false,
                }
            },
            HeaderMatchCompiled::Regex { name, regex } => {
                match header_lookup(headers, name.as_str()) {
                    Some(v) => regex.is_match(v.as_str()),
                    None => false,
                }
            },
        }
    }
}

/// Compiled query parameter match.
#[derive(Debug, Clone)]
pub enum QueryParamMatchCompiled {
    Exact { name: String, value: String },
    Regex { name: String, regex: CompiledRegex },
}

/// Compiled query parameter match, by view.
#[verifier::ext_equal]
pub enum QueryParamMatchView {
    Exact { name: Seq<char>, value: Seq<char> },
    Regex { name: Seq<char>, pattern: Seq<char> },
}

impl View for QueryParamMatchCompiled {
    type V = QueryParamMatchView;

    open spec fn view(&self) -> QueryParamMatchView {
        match self {
            QueryParamMatchCompiled::Exact { name, value } => QueryParamMatchView::Exact {
                name: name@,
                value: value@,
            },
            QueryParamMatchCompiled::Regex { name, regex } => QueryParamMatchView::Regex {
                name: name@,
                pattern: regex.pattern_view(),
            },
        }
    }
}

/// The compiled form a query parameter match rule takes.
pub open spec fn query_match_view_of(qm: QueryParamMatch) -> QueryParamMatchView {
    match qm.match_type {
        MatchType::Exact => QueryParamMatchView::Exact { name: qm.name@, value: qm.value@ },
        MatchType::RegularExpression => QueryParamMatchView::Regex {
            name: qm.name@,
            pattern: qm.value@,
        },
    }
}

/// What a compiled query parameter match accepts, over the raw query string;
/// duplicate parameters resolve first-value-wins.
pub open spec fn qm_matches(qm: QueryParamMatchView, query: Seq<char>) -> bool {
    match qm {
        QueryParamMatchView::Exact { name, value } => qs_first(qs_pairs(query), name) == Some(
            value,
        ),
        QueryParamMatchView::Regex { name, pattern } => match qs_first(qs_pairs(query), name) {
            Some(v) => regex_match(pattern, v),
            None => false,
        },
    }
}

impl QueryParamMatchCompiled {
    /// Compile a configured query parameter match; only an invalid regex
    /// fails.
    pub fn from_config(qm: &QueryParamMatch) -> (r: Result<QueryParamMatchCompiled, String>)
        ensures
            r is Ok <==> (qm.match_type is RegularExpression ==> regex_accepts(qm.value@)),
            r matches Ok(c) ==> c@ == query_match_view_of(*qm),
    {
        match qm.match_type {
            MatchType::Exact => Ok(
                QueryParamMatchCompiled::Exact { name: qm.name.clone(), value: qm.value.clone() },
            ),
            MatchType::RegularExpression => {
                match CompiledRegex::compile(qm.value.as_str()) {
                    Ok(re) => Ok(QueryParamMatchCompiled::Regex { name: qm.name.clone(), regex: re }),
                    Err(e) => {
                        let mut m = String::from_str("Invalid regex '");
                        m.append(qm.value.as_str());
                        m.append("': ");
                        m.append(e.as_str());
                        Err(m)
                    },
                }
            },
        }
    }

    /// Whether the request's query string satisfies this match.
    pub fn matches(&self, query_string: &str) -> (r: bool)
        ensures
            r == qm_matches(self@, query_string@),
    {
        let pairs = parse_query_string(query_string);
        match self {
            QueryParamMatchCompiled::Exact { name, value } => {
                match query_first_value(&pairs, name.as_str()) {
                    Some(v) => str_eq(v.as_str(), value.as_str()),
                    None => false,
                }
            },
            QueryParamMatchCompiled::Regex { name, regex } => {
                match query_first_value(&pairs, name.as_str()) {
                    Some(v) => regex.is_match(v.as_str()),
                    None => false,
                }
            },
        }
    }
}

} // verus!

verus! {

/// Route entry with compiled matchers; `rule_index` is the route's position
/// in the source configuration, before the priority sort.
#[derive(Debug, Clone)]
pub struct RouteEntry {
    pub path_match: Option<PathMatchCompiled>,
    pub method: Option<String>,
    pub headers: Vec<HeaderMatchCompiled>,
    pub query_params: Vec<QueryParamMatchCompiled>,
    pub filters: Option<RouteFilters>,
    pub backends: Vec<WeightedBackendRef>,
    pub priority: i32,
    pub rule_index: usize,
}

/// Route entry, by view.
#[verifier::ext_equal]
pub struct RouteEntryView {
    pub path_match: Option<PathMatchView>,
    pub method: Option<Seq<char>>,
    pub headers: Seq<HeaderMatchView>,
    pub query_params: Seq<QueryParamMatchView>,
    pub filters: Option<RouteFiltersView>,
    pub backends: Seq<(Seq<char>, u32)>,
    pub priority: int,
    pub rule_index: int,
}

pub open spec fn backends_view(bs: Seq<WeightedBackendRef>) -> Seq<(Seq<char>, u32)> {
    bs.map_values(|b: WeightedBackendRef| (b.key@, b.weight))
}

impl View for RouteEntry {
    type V = RouteEntryView;

    open spec fn view(&self) -> RouteEntryView {
        RouteEntryView {
            path_match: match self.path_match {
                Some(pm) => Some(pm@),
                None => None,
            },
            method: match self.method {
                Some(m) => Some(m@),
                None => None,
            },
            headers: self.headers@.map_values(|h: HeaderMatchCompiled| h@),
            query_params: self.query_params@.map_values(|q: QueryParamMatchCompiled| q@),
            filters: opt_filters_view(self.filters),
            backends: backends_view(self.backends@),
            priority: self.priority as int,
            rule_index: self.rule_index as int,
        }
    }
}

pub open spec fn routes_view(rs: Seq<RouteEntry>) -> Seq<RouteEntryView> {
    rs.map_values(|e: RouteEntry| e@)
}

/// Whether a route accepts a request, all present conditions and-ed, absent
/// ones passing.
pub open spec fn route_matches(
    r: RouteEntryView,
    path: Seq<char>,
    method: Seq<char>,
    headers: Seq<(Seq<char>, Seq<char>)>,
    query: Option<Seq<char>>,
) -> bool {
    &&& (match r.path_match {
        Some(pm) => pm_matches(pm, path),
        None => true,
    })
    &&& (match r.method {
        Some(m) => m == method,
        None => true,
    })
    &&& (forall|i: int| 0 <= i < r.headers.len() ==> hm_matches(#[trigger] r.headers[i], headers))
    &&& (match query {
        Some(q) => forall|i: int|
            0 <= i < r.query_params.len() ==> qm_matches(#[trigger] r.query_params[i], q),
        None => r.query_params.len() == 0,
    })
}

pub open spec fn opt_q_view(q: Option<&str>) -> Option<Seq<char>> {
    match q {
        Some(s) => Some(s@),
        None => None,
    }
}

/// Whether a route entry accepts the request.
#[verifier::loop_isolation(false)]
pub fn route_entry_matches(
    e: &RouteEntry,
    path: &str,
    method: &str,
    headers: &Vec<(String, String)>,
    query_string: Option<&str>,
) -> (r: bool)
    ensures
        r == route_matches(e@, path@, method@, pairs_view(headers@), opt_q_view(query_string)),
{
    if let Some(pm) = &e.path_match {
        if !pm.matches(path) {
            return false;
        }
    }
    if let Some(m) = &e.method {
        if !str_eq(m.as_str(), method) {
            return false;
        }
    }
    let hn = e.headers.len();
    let mut i: usize = 0;
    while i < hn
        invariant
            hn == e.headers@.len(),
            i <= hn,
            forall|j: int|
                0 <= j < i ==> hm_matches(
                    #[trigger] routes_header_at(e.headers@, j),
                    pairs_view(headers@),
                ),
        decreases hn - i,
    {
        if !e.headers[i].matches(headers) {
            proof {
                assert(!hm_matches(e@.headers[i as int], pairs_view(headers@)));
            }
            return false;
        }
        proof {
            assert(routes_header_at(e.headers@, i as int) == e.headers@[i as int]@);
        }
        i += 1;
    }
    proof {
        assert(forall|j: int|
            0 <= j < e@.headers.len() ==> #[trigger] e@.headers[j] == routes_header_at(
                e.headers@,
                j,
            ));
    }
    match query_string {
        Some(qs) => {
            let qn = e.query_params.len();
            let mut k: usize = 0;
            while k < qn
                invariant
                    qn == e.query_params@.len(),
                    k <= qn,
                    forall|j: int|
                        0 <= j < k ==> qm_matches(#[trigger] routes_query_at(e.query_params@, j), qs@),
                decreases qn - k,
            {
                if !e.query_params[k].matches(qs) {
                    proof {
                        assert(!qm_matches(e@.query_params[k as int], qs@));
                    }
                    return false;
                }
                proof {
                    assert(routes_query_at(e.query_params@, k as int) == e.query_params@[k as int]@);
                }
                k += 1;
            }
            proof {
                assert(forall|j: int|
                    0 <= j < e@.query_params.len() ==> #[trigger] e@.query_params[j]
                        == routes_query_at(e.query_params@, j));
            }
            true
        },
        None => e.query_params.len() == 0,
    }
}

/// The view of the header matcher at an index.
pub open spec fn routes_header_at(hs: Seq<HeaderMatchCompiled>, j: int) -> HeaderMatchView {
    hs[j]@
}

/// The view of the query matcher at an index.
pub open spec fn routes_query_at(qs: Seq<QueryParamMatchCompiled>, j: int) -> QueryParamMatchView {
    qs[j]@
}

/// Strict ordering used by the priority sort: `a` comes before `b` when its
/// priority is higher. Insertion in source order makes ties stable.
pub open spec fn route_before(a: RouteEntryView, b: RouteEntryView) -> bool {
    a.priority > b.priority
}

/// Insertion position: before the first route of strictly lower priority.
pub open spec fn ins_pos(s: Seq<RouteEntryView>, e: RouteEntryView) -> int
    decreases s.len(),
{
    if s.len() == 0 {
        0int
    } else if route_before(e, s[0]) {
        0int
    } else {
        1 + ins_pos(s.skip(1), e)
    }
}

/// Stable insertion of a route into a priority-sorted sequence.
pub open spec fn insert_route_spec(s: Seq<RouteEntryView>, e: RouteEntryView) -> Seq<
    RouteEntryView,
>
    decreases s.len(),
{
    if s.len() == 0 {
        seq![e]
    } else if route_before(e, s[0]) {
        seq![e] + s
    } else {
        seq![s[0]] + insert_route_spec(s.skip(1), e)
    }
}

/// The insertion position is in range, everything before it is not after
/// `e`, and the element there (if any) is after `e`; inserting there gives
/// `insert_route_spec`.
pub proof fn lemma_ins_pos(s: Seq<RouteEntryView>, e: RouteEntryView)
    ensures
        0 <= ins_pos(s, e) <= s.len(),
        forall|j: int| 0 <= j < ins_pos(s, e) ==> !route_before(e, s[j]),
        ins_pos(s, e) < s.len() ==> route_before(e, s[ins_pos(s, e)]),
        insert_route_spec(s, e) == s.subrange(0, ins_pos(s, e)).push(e) + s.subrange(
            ins_pos(s, e),
            s.len() as int,
        ),
    decreases s.len(),
{
    if s.len() == 0 {
        assert(insert_route_spec(s, e) =~= s.subrange(0, 0).push(e) + s.subrange(0, 0));
    } else if route_before(e, s[0]) {
        assert(insert_route_spec(s, e) =~= s.subrange(0, 0).push(e) + s.subrange(
            0,
            s.len() as int,
        ));
    } else {
        lemma_ins_pos(s.skip(1), e);
        let p = ins_pos(s, e);
        assert(forall|j: int| 0 <= j < s.skip(1).len() ==> #[trigger] s.skip(1)[j] == s[j + 1]);
        assert forall|j: int| 0 <= j < p implies !route_before(e, s[j]) by {
            if j > 0 {
                assert(s.skip(1)[j - 1] == s[j]);
                assert(!route_before(e, s.skip(1)[j - 1]));
            }
        }
        assert(insert_route_spec(s, e) =~= s.subrange(0, p).push(e) + s.subrange(
            p,
            s.len() as int,
        )) by {
            assert(insert_route_spec(s, e) == seq![s[0]] + insert_route_spec(s.skip(1), e));
            assert(insert_route_spec(s.skip(1), e) == s.skip(1).subrange(0, p - 1).push(e)
                + s.skip(1).subrange(p - 1, s.skip(1).len() as int));
            assert(s.skip(1).subrange(0, p - 1) =~= s.subrange(1, p));
            assert(s.skip(1).subrange(p - 1, s.skip(1).len() as int) =~= s.subrange(
                p,
                s.len() as int,
            ));
        }
    }
}

/// Insert a route entry into a priority-sorted list, keeping ties in
/// insertion order.
#[verifier::loop_isolation(false)]
pub fn insert_route(routes: &mut Vec<RouteEntry>, e: RouteEntry)
    ensures
        routes_view(final(routes)@) == insert_route_spec(routes_view(old(routes)@), e@),
{
    let ghost sv = routes_view(routes@);
    let ghost ev = e@;
    proof {
        lemma_ins_pos(sv, ev);
    }
    let n = routes.len();
    let mut p: usize = 0;
    while p < n
        invariant
            p <= n,
            forall|j: int| 0 <= j < p ==> !route_before(ev, sv[j]),
        decreases n - p,
    {
        proof {
            assert(sv[p as int] == routes@[p as int]@);
        }
        if e.priority > routes[p].priority {
            break;
        }
        p += 1;
    }
    proof {
        assert(ins_pos(sv, ev) == p as int) by {
            let q = ins_pos(sv, ev);
            if q < p {
                assert(!route_before(ev, sv[q]));
            }
            if p < q {
                assert(!route_before(ev, sv[p as int]));
            }
        }
    }
    routes.insert(p, e);
    proof {
        assert(routes_view(routes@) =~= sv.subrange(0, p as int).push(ev) + sv.subrange(
            p as int,
            sv.len() as int,
        ));
    }
}

} // verus!

verus! {

/// Routing state: exact hostnames, wildcard patterns in insertion order,
/// and the legacy global fallback.
#[derive(Debug)]
pub struct RoutingState {
    /// Exact hostname matches with their priority-sorted routes.
    pub exact: Vec<(String, Vec<RouteEntry>)>,
    /// Wildcard hostname patterns with their routes, in order.
    pub wildcards: Vec<(String, Vec<RouteEntry>)>,
    /// Default fallback backends.
    pub default: Option<Vec<WeightedBackendRef>>,
}

/// Routing state, by view.
#[verifier::ext_equal]
pub struct RoutingStateView {
    pub exact: Seq<(Seq<char>, Seq<RouteEntryView>)>,
    pub wildcards: Seq<(Seq<char>, Seq<RouteEntryView>)>,
    pub default: Option<Seq<(Seq<char>, u32)>>,
}

pub open spec fn vhost_list_view(s: Seq<(String, Vec<RouteEntry>)>) -> Seq<
    (Seq<char>, Seq<RouteEntryView>),
> {
    s.map_values(|e: (String, Vec<RouteEntry>)| (e.0@, routes_view(e.1@)))
}

impl View for RoutingState {
    type V = RoutingStateView;

    open spec fn view(&self) -> RoutingStateView {
        RoutingStateView {
            exact: vhost_list_view(self.exact@),
            wildcards: vhost_list_view(self.wildcards@),
            default: match self.default {
                Some(d) => Some(backends_view(d@)),
                None => None,
            },
        }
    }
}

/// A hostname pattern of the wildcard form `*.suffix`.
pub open spec fn is_wildcard_name(h: Seq<char>) -> bool {
    h.len() >= 2 && h[0] == '*' && h[1] == '.'
}

/// The pool key each configured backend compiles to.
pub open spec fn config_backends_view(bs: Seq<crate::config::Backend>) -> Seq<(Seq<char>, u32)> {
    bs.map_values(
        |b: crate::config::Backend| (crate::backend_pool::key_of(b.address@, b.port), b.weight),
    )
}

/// The compiled view of one configured route at its source position.
pub open spec fn route_view_of(route: crate::config::Route, idx: int) -> RouteEntryView {
    RouteEntryView {
        path_match: match route.path_match {
            Some(pm) => Some(path_match_view_of(pm)),
            None => None,
        },
        method: crate::config::opt_str_view(route.method),
        headers: route.headers@.map_values(|h: HeaderMatch| header_match_view_of(h)),
        query_params: route.query_params@.map_values(|q: QueryParamMatch| query_match_view_of(q)),
        filters: opt_filters_view(route.filters),
        backends: config_backends_view(route.backends@),
        priority: route.priority as int,
        rule_index: idx,
    }
}

/// The synthesized lowest-priority route for `default_backends`.
pub open spec fn default_route_view(bs: Seq<crate::config::Backend>, idx: int) -> RouteEntryView {
    RouteEntryView {
        path_match: None,
        method: None,
        headers: Seq::empty(),
        query_params: Seq::empty(),
        filters: None,
        backends: config_backends_view(bs),
        priority: 0,
        rule_index: idx,
    }
}

/// The first `k` routes of a vhost, compiled and priority-sorted.
pub open spec fn sorted_routes_prefix(routes: Seq<crate::config::Route>, k: int) -> Seq<
    RouteEntryView,
>
    decreases k,
{
    if k <= 0 {
        Seq::empty()
    } else {
        insert_route_spec(sorted_routes_prefix(routes, k - 1), route_view_of(routes[k - 1], k - 1))
    }
}

/// The complete compiled route list of one vhost: sorted routes, then the
/// synthesized default route when `default_backends` is non-empty.
pub open spec fn vhost_routes_view(v: crate::config::VHostV2) -> Seq<RouteEntryView> {
    let base = sorted_routes_prefix(v.routes@, v.routes@.len() as int);
    if v.default_backends@.len() > 0 {
        base.push(default_route_view(v.default_backends@, v.routes@.len() as int))
    } else {
        base
    }
}

pub open spec fn vhost_entry_view(e: (String, crate::config::VHostV2)) -> (
    Seq<char>,
    Seq<RouteEntryView>,
) {
    (e.0@, vhost_routes_view(e.1))
}

/// Predicate for the exact-hostname side of the split.
pub open spec fn exact_pred() -> spec_fn((String, crate::config::VHostV2)) -> bool {
    |e: (String, crate::config::VHostV2)| !is_wildcard_name(e.0@)
}

/// Predicate for the wildcard side of the split.
pub open spec fn wild_pred() -> spec_fn((String, crate::config::VHostV2)) -> bool {
    |e: (String, crate::config::VHostV2)| is_wildcard_name(e.0@)
}

/// Mapping from a configured vhost to its compiled view.
pub open spec fn vhost_entry_map() -> spec_fn((String, crate::config::VHostV2)) -> (
    Seq<char>,
    Seq<RouteEntryView>,
) {
    |e: (String, crate::config::VHostV2)| vhost_entry_view(e)
}

/// What compiling a whole configuration produces.
pub open spec fn build_view(config: crate::config::ConfigV2) -> RoutingStateView {
    RoutingStateView {
        exact: config.vhosts@.filter(exact_pred()).map_values(vhost_entry_map()),
        wildcards: config.vhosts@.filter(wild_pred()).map_values(vhost_entry_map()),
        default: None,
    }
}

/// Every regex matcher of the route compiles.
pub open spec fn route_compilable(r: crate::config::Route) -> bool {
    &&& (match r.path_match {
        Some(pm) => pm.match_type is RegularExpression ==> regex_accepts(pm.value@),
        None => true,
    })
    &&& (forall|i: int|
        0 <= i < r.headers@.len() ==> ((#[trigger] r.headers@[i]).match_type
            is RegularExpression ==> regex_accepts(r.headers@[i].value@)))
    &&& (forall|i: int|
        0 <= i < r.query_params@.len() ==> ((#[trigger] r.query_params@[i]).match_type
            is RegularExpression ==> regex_accepts(r.query_params@[i].value@)))
}

/// Every regex matcher anywhere in the configuration compiles.
pub open spec fn config_compilable(c: crate::config::ConfigV2) -> bool {
    forall|i: int|
        0 <= i < c.vhosts@.len() ==> (forall|k: int|
            0 <= k < (#[trigger] c.vhosts@[i]).1.routes@.len() ==> route_compilable(
                #[trigger] c.vhosts@[i].1.routes@[k],
            ))
}

/// Keys of every backend of every route are present in the pool.
pub open spec fn routes_keys_in_pool(
    routes: Seq<RouteEntryView>,
    pool: crate::backend_pool::BackendPool,
) -> bool {
    forall|i: int, j: int|
        0 <= i < routes.len() && 0 <= j < (#[trigger] routes[i]).backends.len() ==> pool.has_key(
            (#[trigger] routes[i].backends[j]).0,
        )
}

/// Keys referenced anywhere in the routing state are present in the pool.
pub open spec fn rs_keys_in_pool(
    v: RoutingStateView,
    pool: crate::backend_pool::BackendPool,
) -> bool {
    &&& (forall|i: int|
        0 <= i < v.exact.len() ==> routes_keys_in_pool((#[trigger] v.exact[i]).1, pool))
    &&& (forall|i: int|
        0 <= i < v.wildcards.len() ==> routes_keys_in_pool((#[trigger] v.wildcards[i]).1, pool))
    &&& (match v.default {
        Some(d) => forall|j: int| 0 <= j < d.len() ==> pool.has_key((#[trigger] d[j]).0),
        None => true,
    })
}

/// Elements of a stable insertion are the inserted entry or elements of the
/// original sequence.
pub proof fn lemma_insert_route_elements(s: Seq<RouteEntryView>, e: RouteEntryView)
    ensures
        forall|i: int|
            0 <= i < insert_route_spec(s, e).len() ==> (#[trigger] insert_route_spec(s, e)[i] == e
                || exists|j: int| 0 <= j < s.len() && insert_route_spec(s, e)[i] == #[trigger] s[j]),
{
    lemma_ins_pos(s, e);
    let p = ins_pos(s, e);
    assert forall|i: int| 0 <= i < insert_route_spec(s, e).len() implies (
    #[trigger] insert_route_spec(s, e)[i] == e || exists|j: int|
        0 <= j < s.len() && insert_route_spec(s, e)[i] == #[trigger] s[j]) by {
        if i < p {
            assert(insert_route_spec(s, e)[i] == s[i]);
        } else if i == p {
            assert(insert_route_spec(s, e)[i] == e);
        } else {
            assert(insert_route_spec(s, e)[i] == s[i - 1]);
        }
    }
}

} // verus!

verus! {

/// Compile all header matches of one route.
#[verifier::loop_isolation(false)]
fn compile_header_matches(hs: &Vec<HeaderMatch>) -> (r: Result<Vec<HeaderMatchCompiled>, String>)
    ensures
        r matches Ok(v) ==> v@.map_values(|h: HeaderMatchCompiled| h@) == hs@.map_values(
            |h: HeaderMatch| header_match_view_of(h),
        ),
        r is Ok <==> (forall|i: int|
            0 <= i < hs@.len() ==> ((#[trigger] hs@[i]).match_type is RegularExpression
                ==> regex_accepts(hs@[i].value@))),
{
    let n = hs.len();
    let mut out: Vec<HeaderMatchCompiled> = Vec::new();
    let mut i: usize = 0;
    while i < n
        invariant
            i <= n,
            out@.len() == i,
            forall|j: int| 0 <= j < i ==> (#[trigger] out@[j])@ == header_match_view_of(hs@[j]),
            forall|j: int|
                0 <= j < i ==> ((#[trigger] hs@[j]).match_type is RegularExpression
                    ==> regex_accepts(hs@[j].value@)),
        decreases n - i,
    {
        match HeaderMatchCompiled::from_config(&hs[i]) {
            Ok(c) => {
                out.push(c);
            },
            Err(e) => {
                return Err(e);
            },
        }
        i += 1;
    }
    proof {
        assert(out@.map_values(|h: HeaderMatchCompiled| h@) =~= hs@.map_values(
            |h: HeaderMatch| header_match_view_of(h),
        ));
    }
    Ok(out)
}

/// Compile all query parameter matches of one route.
#[verifier::loop_isolation(false)]
fn compile_query_matches(qs: &Vec<QueryParamMatch>) -> (r: Result<
    Vec<QueryParamMatchCompiled>,
    String,
>)
    ensures
        r matches Ok(v) ==> v@.map_values(|q: QueryParamMatchCompiled| q@) == qs@.map_values(
            |q: QueryParamMatch| query_match_view_of(q),
        ),
        r is Ok <==> (forall|i: int|
            0 <= i < qs@.len() ==> ((#[trigger] qs@[i]).match_type is RegularExpression
                ==> regex_accepts(qs@[i].value@))),
{
    let n = qs.len();
    let mut out: Vec<QueryParamMatchCompiled> = Vec::new();
    let mut i: usize = 0;
    while i < n
        invariant
            i <= n,
            out@.len() == i,
            forall|j: int| 0 <= j < i ==> (#[trigger] out@[j])@ == query_match_view_of(qs@[j]),
            forall|j: int|
                0 <= j < i ==> ((#[trigger] qs@[j]).match_type is RegularExpression
                    ==> regex_accepts(qs@[j].value@)),
        decreases n - i,
    {
        match QueryParamMatchCompiled::from_config(&qs[i]) {
            Ok(c) => {
                out.push(c);
            },
            Err(e) => {
                return Err(e);
            },
        }
        i += 1;
    }
    proof {
        assert(out@.map_values(|q: QueryParamMatchCompiled| q@) =~= qs@.map_values(
            |q: QueryParamMatch| query_match_view_of(q),
        ));
    }
    Ok(out)
}

/// Create pool entries for a route's backends and return the weighted refs.
#[verifier::loop_isolation(false)]
fn build_backend_refs(
    bs: &Vec<crate::config::Backend>,
    pool: &mut crate::backend_pool::BackendPool,
) -> (r: Vec<WeightedBackendRef>)
    requires
        old(pool).wf(),
    ensures
        final(pool).wf(),
        forall|k: Seq<char>| old(pool).has_key(k) ==> final(pool).has_key(k),
        forall|k: Seq<char>, h: u64|
            old(pool).has_entry(k, h) ==> final(pool).has_entry(k, h),
        backends_view(r@) == config_backends_view(bs@),
        forall|j: int|
            0 <= j < r@.len() ==> final(pool).has_key((#[trigger] backends_view(r@)[j]).0),
{
    let n = bs.len();
    let mut out: Vec<WeightedBackendRef> = Vec::new();
    let mut i: usize = 0;
    while i < n
        invariant
            i <= n,
            pool.wf(),
            out@.len() == i,
            forall|k: Seq<char>| old(pool).has_key(k) ==> pool.has_key(k),
            forall|k: Seq<char>, h: u64| old(pool).has_entry(k, h) ==> pool.has_entry(k, h),
            forall|j: int|
                0 <= j < i ==> (#[trigger] out@[j]).key@ == crate::backend_pool::key_of(
                    bs@[j].address@,
                    bs@[j].port,
                ) && out@[j].weight == bs@[j].weight,
            forall|j: int| 0 <= j < i ==> pool.has_key((#[trigger] out@[j]).key@),
        decreases n - i,
    {
        let ghost pool_before = *pool;
        let b = &bs[i];
        let key = pool.get_or_create(b.address.as_str(), b.port);
        out.push(WeightedBackendRef { key, weight: b.weight });
        proof {
            assert forall|j: int| 0 <= j < i + 1 implies pool.has_key(
                (#[trigger] out@[j]).key@,
            ) by {
                if j < i {
                    assert(pool_before.has_key(out@[j].key@));
                }
            }
        }
        i += 1;
    }
    proof {
        assert(backends_view(out@) =~= config_backends_view(bs@));
        assert forall|j: int| 0 <= j < out@.len() implies pool.has_key(
            (#[trigger] backends_view(out@)[j]).0,
        ) by {
            assert(backends_view(out@)[j].0 == out@[j].key@);
        }
    }
    out
}

/// Compile one configured route at its source position, creating pool
/// entries for its backends.
#[verifier::loop_isolation(false)]
fn compile_route(
    route: &crate::config::Route,
    idx: usize,
    pool: &mut crate::backend_pool::BackendPool,
) -> (r: Result<RouteEntry, String>)
    requires
        old(pool).wf(),
    ensures
        final(pool).wf(),
        forall|k: Seq<char>| old(pool).has_key(k) ==> final(pool).has_key(k),
        forall|k: Seq<char>, h: u64|
            old(pool).has_entry(k, h) ==> final(pool).has_entry(k, h),
        r matches Ok(e) ==> e@ == route_view_of(*route, idx as int),
        r is Ok <==> route_compilable(*route),
        r matches Ok(e) ==> forall|j: int|
            0 <= j < e@.backends.len() ==> final(pool).has_key((#[trigger] e@.backends[j]).0),
{
    let backends = build_backend_refs(&route.backends, pool);
    let path_match = match &route.path_match {
        Some(pm) => {
            match PathMatchCompiled::from_config(pm) {
                Ok(c) => Some(c),
                Err(e) => {
                    let mut m = String::from_str("Invalid path match: ");
                    m.append(e.as_str());
                    return Err(m);
                },
            }
        },
        None => None,
    };
    let headers = match compile_header_matches(&route.headers) {
        Ok(v) => v,
        Err(e) => {
            let mut m = String::from_str("Invalid header match: ");
            m.append(e.as_str());
            return Err(m);
        },
    };
    let query_params = match compile_query_matches(&route.query_params) {
        Ok(v) => v,
        Err(e) => {
            let mut m = String::from_str("Invalid query param match: ");
            m.append(e.as_str());
            return Err(m);
        },
    };
    let filters = match &route.filters {
        Some(f) => Some(clone_filters(f)),
        None => None,
    };
    let entry = RouteEntry {
        path_match,
        method: crate::config::clone_opt_string(&route.method),
        headers,
        query_params,
        filters,
        backends,
        priority: route.priority,
        rule_index: idx,
    };
    proof {
        assert(entry@ =~= route_view_of(*route, idx as int));
    }
    Ok(entry)
}

} // verus!

verus! {

/// Key presence carries over to a pool with at least the same keys.
proof fn lemma_keys_monotone(
    routes: Seq<RouteEntryView>,
    p1: crate::backend_pool::BackendPool,
    p2: crate::backend_pool::BackendPool,
)
    requires
        routes_keys_in_pool(routes, p1),
        forall|k: Seq<char>| p1.has_key(k) ==> p2.has_key(k),
    ensures
        routes_keys_in_pool(routes, p2),
{
    assert forall|i: int, j: int|
        0 <= i < routes.len() && 0 <= j < (#[trigger] routes[i]).backends.len() implies p2.has_key(
        (#[trigger] routes[i].backends[j]).0,
    ) by {
        assert(p1.has_key(routes[i].backends[j].0));
    }
}

/// Compile one vhost's routes, sorted by priority with stable ties, the
/// synthesized default route appended last.
#[verifier::loop_isolation(false)]
fn compile_vhost(
    v: &crate::config::VHostV2,
    pool: &mut crate::backend_pool::BackendPool,
) -> (r: Result<Vec<RouteEntry>, String>)
    requires
        old(pool).wf(),
    ensures
        final(pool).wf(),
        forall|k: Seq<char>| old(pool).has_key(k) ==> final(pool).has_key(k),
        forall|k: Seq<char>, h: u64|
            old(pool).has_entry(k, h) ==> final(pool).has_entry(k, h),
        r matches Ok(entries) ==> routes_view(entries@) == vhost_routes_view(*v),
        r is Ok <==> (forall|k: int| 0 <= k < v.routes@.len() ==> route_compilable(
            #[trigger] v.routes@[k],
        )),
        r matches Ok(entries) ==> routes_keys_in_pool(routes_view(entries@), *final(pool)),
{
    let rn = v.routes.len();
    let mut entries: Vec<RouteEntry> = Vec::new();
    let mut k: usize = 0;
    proof {
        assert(routes_view(entries@) =~= sorted_routes_prefix(v.routes@, 0));
    }
    while k < rn
        invariant
            k <= rn,
            pool.wf(),
            forall|kk: Seq<char>| old(pool).has_key(kk) ==> pool.has_key(kk),
            forall|kk: Seq<char>, h: u64| old(pool).has_entry(kk, h) ==> pool.has_entry(kk, h),
            routes_view(entries@) == sorted_routes_prefix(v.routes@, k as int),
            routes_keys_in_pool(routes_view(entries@), *pool),
            forall|j: int| 0 <= j < k ==> route_compilable(#[trigger] v.routes@[j]),
        decreases rn - k,
    {
        let ghost pool_at_head = *pool;
        let ghost before = routes_view(entries@);
        let entry = match compile_route(&v.routes[k], k, pool) {
            Ok(e) => e,
            Err(e) => {
                return Err(e);
            },
        };
        let ghost ev = entry@;
        proof {
            lemma_keys_monotone(before, pool_at_head, *pool);
            lemma_insert_route_elements(before, ev);
        }
        insert_route(&mut entries, entry);
        proof {
            let now = routes_view(entries@);
            assert(now == insert_route_spec(before, ev));
            assert(now =~= sorted_routes_prefix(v.routes@, k + 1));
            assert forall|i: int, j: int|
                0 <= i < now.len() && 0 <= j < (#[trigger] now[i]).backends.len() implies
                pool.has_key((#[trigger] now[i].backends[j]).0) by {
                if now[i] == ev {
                } else {
                    let w = choose|w: int| 0 <= w < before.len() && now[i] == #[trigger] before[w];
                    assert(pool.has_key(before[w].backends[j].0));
                }
            }
        }
        k += 1;
    }
    if v.default_backends.len() > 0 {
        let ghost pool_at_mid = *pool;
        let ghost base = routes_view(entries@);
        let drefs = build_backend_refs(&v.default_backends, pool);
        let default_entry = RouteEntry {
            path_match: None,
            method: None,
            headers: Vec::new(),
            query_params: Vec::new(),
            filters: None,
            backends: drefs,
            priority: 0,
            rule_index: rn,
        };
        let ghost dv = default_entry@;
        proof {
            assert(dv =~= default_route_view(v.default_backends@, rn as int));
            lemma_keys_monotone(base, pool_at_mid, *pool);
        }
        entries.push(default_entry);
        proof {
            let now = routes_view(entries@);
            assert(now =~= base.push(dv));
            assert(now =~= vhost_routes_view(*v));
            assert forall|i: int, j: int|
                0 <= i < now.len() && 0 <= j < (#[trigger] now[i]).backends.len() implies
                pool.has_key((#[trigger] now[i].backends[j]).0) by {
                if i < now.len() - 1 {
                    assert(now[i] == base[i]);
                    assert(pool.has_key(base[i].backends[j].0));
                } else {
                    assert(now[i] == dv);
                    assert(pool.has_key(backends_view(drefs@)[j].0));
                }
            }
        }
    } else {
        proof {
            assert(routes_view(entries@) == vhost_routes_view(*v));
        }
    }
    Ok(entries)
}

/// Whether the hostname is a `*.`-wildcard pattern.
fn is_wildcard_exec(h: &str) -> (r: bool)
    ensures
        r == is_wildcard_name(h@),
{
    let n = h.unicode_len();
    n >= 2 && h.get_char(0) == '*' && h.get_char(1) == '.'
}

/// Build the routing state from a configuration: compile every vhost,
/// create pool entries for every referenced backend, and split the vhosts
/// into exact names and wildcard patterns.
#[verifier::loop_isolation(false)]
pub fn build_routing_state(
    config: &crate::config::ConfigV2,
    pool: &mut crate::backend_pool::BackendPool,
) -> (r: Result<RoutingState, String>)
    requires
        old(pool).wf(),
    ensures
        final(pool).wf(),
        forall|k: Seq<char>| old(pool).has_key(k) ==> final(pool).has_key(k),
        forall|k: Seq<char>, h: u64|
            old(pool).has_entry(k, h) ==> final(pool).has_entry(k, h),
        r matches Ok(rs) ==> rs@ == build_view(*config),
        r matches Ok(rs) ==> rs_keys_in_pool(rs@, *final(pool)),
        r is Ok <==> config_compilable(*config),
{
    let mut exact: Vec<(String, Vec<RouteEntry>)> = Vec::new();
    let mut wildcards: Vec<(String, Vec<RouteEntry>)> = Vec::new();
    let nv = config.vhosts.len();
    let mut i: usize = 0;
    proof {
        reveal(Seq::filter);
        assert(vhost_list_view(exact@) =~= config.vhosts@.subrange(0, 0).filter(
            exact_pred(),
        ).map_values(vhost_entry_map()));
        assert(vhost_list_view(wildcards@) =~= config.vhosts@.subrange(0, 0).filter(
            wild_pred(),
        ).map_values(vhost_entry_map()));
    }
    while i < nv
        invariant
            i <= nv,
            pool.wf(),
            forall|k: Seq<char>| old(pool).has_key(k) ==> pool.has_key(k),
            forall|k: Seq<char>, h: u64| old(pool).has_entry(k, h) ==> pool.has_entry(k, h),
            vhost_list_view(exact@) == config.vhosts@.subrange(0, i as int).filter(
                exact_pred(),
            ).map_values(vhost_entry_map()),
            vhost_list_view(wildcards@) == config.vhosts@.subrange(0, i as int).filter(
                wild_pred(),
            ).map_values(vhost_entry_map()),
            forall|a: int|
                0 <= a < exact@.len() ==> routes_keys_in_pool(
                    routes_view((#[trigger] exact@[a]).1@),
                    *pool,
                ),
            forall|a: int|
                0 <= a < wildcards@.len() ==> routes_keys_in_pool(
                    routes_view((#[trigger] wildcards@[a]).1@),
                    *pool,
                ),
            forall|a: int|
                0 <= a < i ==> (forall|k: int|
                    0 <= k < (#[trigger] config.vhosts@[a]).1.routes@.len() ==> route_compilable(
                        #[trigger] config.vhosts@[a].1.routes@[k],
                    )),
        decreases nv - i,
    {
        let ghost pool_at_head = *pool;
        let hostname = config.vhosts[i].0.clone();
        let entries = match compile_vhost(&config.vhosts[i].1, pool) {
            Ok(es) => es,
            Err(e) => {
                return Err(e);
            },
        };
        proof {
            assert forall|a: int| 0 <= a < exact@.len() implies routes_keys_in_pool(
                routes_view((#[trigger] exact@[a]).1@),
                *pool,
            ) by {
                lemma_keys_monotone(routes_view(exact@[a].1@), pool_at_head, *pool);
            }
            assert forall|a: int| 0 <= a < wildcards@.len() implies routes_keys_in_pool(
                routes_view((#[trigger] wildcards@[a]).1@),
                *pool,
            ) by {
                lemma_keys_monotone(routes_view(wildcards@[a].1@), pool_at_head, *pool);
            }
            reveal(Seq::filter);
            assert(config.vhosts@.subrange(0, i + 1).drop_last() =~= config.vhosts@.subrange(
                0,
                i as int,
            ));
            assert(config.vhosts@.subrange(0, i + 1).last() == config.vhosts@[i as int]);
        }
        let ghost old_exact = vhost_list_view(exact@);
        let ghost old_wild = vhost_list_view(wildcards@);
        let wild = is_wildcard_exec(hostname.as_str());
        proof {
            reveal(Seq::filter);
            let pv = config.vhosts@.subrange(0, i + 1);
            let last = config.vhosts@[i as int];
            assert(hostname@ == last.0@);
            assert(vhost_entry_view(last).0 == hostname@);
            assert(vhost_entry_view(last).1 == routes_view(entries@));
            if wild {
                assert(pv.filter(wild_pred()) =~= config.vhosts@.subrange(0, i as int).filter(
                    wild_pred(),
                ).push(last));
                assert(pv.filter(wild_pred()).map_values(vhost_entry_map()) =~= old_wild.push(
                    (hostname@, routes_view(entries@)),
                ));
                assert(pv.filter(exact_pred()) =~= config.vhosts@.subrange(0, i as int).filter(
                    exact_pred(),
                ));
            } else {
                assert(pv.filter(exact_pred()) =~= config.vhosts@.subrange(0, i as int).filter(
                    exact_pred(),
                ).push(last));
                assert(pv.filter(exact_pred()).map_values(vhost_entry_map()) =~= old_exact.push(
                    (hostname@, routes_view(entries@)),
                ));
                assert(pv.filter(wild_pred()) =~= config.vhosts@.subrange(0, i as int).filter(
                    wild_pred(),
                ));
            }
        }
        if wild {
            wildcards.push((hostname, entries));
            proof {
                assert(vhost_list_view(wildcards@) =~= old_wild.push(
                    (config.vhosts@[i as int].0@, routes_view(entries@)),
                ));
            }
        } else {
            exact.push((hostname, entries));
            proof {
                assert(vhost_list_view(exact@) =~= old_exact.push(
                    (config.vhosts@[i as int].0@, routes_view(entries@)),
                ));
            }
        }
        i += 1;
    }
    proof {
        assert(config.vhosts@.subrange(0, nv as int) =~= config.vhosts@);
    }
    let rs = RoutingState { exact, wildcards, default: None };
    proof {
        assert(rs@ =~= build_view(*config));
    }
    Ok(rs)
}

} // verus!

verus! {

/// Whether some route in the list references pool key `k`.
pub open spec fn routes_reference(routes: Seq<RouteEntryView>, k: Seq<char>) -> bool {
    exists|i: int, j: int|
        0 <= i < routes.len() && 0 <= j < (#[trigger] routes[i]).backends.len() && (
        #[trigger] routes[i].backends[j]).0 == k
}

/// Whether the routing state references pool key `k` anywhere.
pub open spec fn rs_references(v: RoutingStateView, k: Seq<char>) -> bool {
    ||| (exists|i: int| 0 <= i < v.exact.len() && routes_reference((#[trigger] v.exact[i]).1, k))
    ||| (exists|i: int|
        0 <= i < v.wildcards.len() && routes_reference((#[trigger] v.wildcards[i]).1, k))
    ||| (v.default matches Some(d) && exists|j: int| 0 <= j < d.len() && (#[trigger] d[j]).0 == k)
}

/// Append every backend key of one route list to `out`.
#[verifier::loop_isolation(false)]
pub fn collect_route_keys(routes: &Vec<RouteEntry>, out: &mut Vec<String>)
    ensures
        forall|k: Seq<char>|
            crate::backend_pool::key_listed(final(out)@, k) <==> (crate::backend_pool::key_listed(
                old(out)@,
                k,
            ) || routes_reference(routes_view(routes@), k)),
{
    let rn = routes.len();
    let mut i: usize = 0;
    while i < rn
        invariant
            i <= rn,
            forall|k: Seq<char>|
                crate::backend_pool::key_listed(out@, k) <==> (crate::backend_pool::key_listed(
                    old(out)@,
                    k,
                ) || routes_reference(routes_view(routes@).subrange(0, i as int), k)),
        decreases rn - i,
    {
        let ghost rv = routes_view(routes@);
        let bn = routes[i].backends.len();
        let mut j: usize = 0;
        while j < bn
            invariant
                i < rn,
                j <= bn,
                bn == routes@[i as int].backends@.len(),
                forall|k: Seq<char>|
                    crate::backend_pool::key_listed(out@, k) <==> (crate::backend_pool::key_listed(
                        old(out)@,
                        k,
                    ) || routes_reference(rv.subrange(0, i as int), k) || (exists|l: int|
                        0 <= l < j && (#[trigger] rv[i as int].backends[l]).0 == k)),
            decreases bn - j,
        {
            let ghost before = out@;
            out.push(routes[i].backends[j].key.clone());
            proof {
                assert(out@.drop_last() =~= before);
                assert(out@[out@.len() - 1]@ == rv[i as int].backends[j as int].0);
                assert forall|k: Seq<char>|
                    crate::backend_pool::key_listed(out@, k) <==> (
                crate::backend_pool::key_listed(old(out)@, k) || routes_reference(
                    rv.subrange(0, i as int),
                    k,
                ) || (exists|l: int|
                    0 <= l < j + 1 && (#[trigger] rv[i as int].backends[l]).0 == k)) by {
                    if crate::backend_pool::key_listed(out@, k) {
                        let w = choose|w: int|
                            0 <= w < out@.len() && (#[trigger] out@[w])@ == k;
                        if w < out@.len() - 1 {
                            assert(crate::backend_pool::key_listed(before, k));
                        } else {
                            assert(rv[i as int].backends[j as int].0 == k);
                        }
                    }
                    if crate::backend_pool::key_listed(before, k) {
                        let w = choose|w: int|
                            0 <= w < before.len() && (#[trigger] before[w])@ == k;
                        assert(out@[w]@ == k);
                    }
                    if exists|l: int|
                        0 <= l < j + 1 && (#[trigger] rv[i as int].backends[l]).0 == k {
                        let l = choose|l: int|
                            0 <= l < j + 1 && (#[trigger] rv[i as int].backends[l]).0 == k;
                        if l == j {
                            assert(out@[out@.len() - 1]@ == k);
                        }
                    }
                }
            }
            j += 1;
        }
        proof {
            assert(rv.subrange(0, i + 1).drop_last() =~= rv.subrange(0, i as int));
            assert forall|k: Seq<char>|
                routes_reference(rv.subrange(0, i + 1), k) <==> (routes_reference(
                rv.subrange(0, i as int),
                k,
            ) || (exists|l: int|
                0 <= l < rv[i as int].backends.len() && (#[trigger] rv[i as int].backends[l]).0
                    == k)) by {
                let pre = rv.subrange(0, i + 1);
                if routes_reference(pre, k) {
                    let (a, b) = choose|a: int, b: int|
                        0 <= a < pre.len() && 0 <= b < (#[trigger] pre[a]).backends.len() && (
                        #[trigger] pre[a].backends[b]).0 == k;
                    if a < i {
                        assert(rv.subrange(0, i as int)[a] == pre[a]);
                        assert(routes_reference(rv.subrange(0, i as int), k));
                    } else {
                        assert(pre[a] == rv[i as int]);
                    }
                }
                if routes_reference(rv.subrange(0, i as int), k) {
                    let (a, b) = choose|a: int, b: int|
                        0 <= a < rv.subrange(0, i as int).len() && 0 <= b < (#[trigger] rv.subrange(
                            0,
                            i as int,
                        )[a]).backends.len() && (#[trigger] rv.subrange(0, i as int)[a].backends[b]).0
                            == k;
                    assert(pre[a] == rv.subrange(0, i as int)[a]);
                    assert(routes_reference(pre, k));
                }
                if exists|l: int|
                    0 <= l < rv[i as int].backends.len() && (#[trigger] rv[i as int].backends[l]).0
                        == k {
                    assert(pre[i as int] == rv[i as int]);
                    assert(routes_reference(pre, k));
                }
            }
        }
        i += 1;
    }
    proof {
        assert(routes_view(routes@).subrange(0, rn as int) =~= routes_view(routes@));
    }
}

/// Collect every backend key referenced in the routing state.
#[verifier::loop_isolation(false)]
pub fn collect_referenced_backends(routing: &RoutingState) -> (r: Vec<String>)
    ensures
        forall|k: Seq<char>|
            crate::backend_pool::key_listed(r@, k) <==> rs_references(routing@, k),
{
    let mut out: Vec<String> = Vec::new();
    let en = routing.exact.len();
    let mut i: usize = 0;
    while i < en
        invariant
            i <= en,
            forall|k: Seq<char>|
                crate::backend_pool::key_listed(out@, k) <==> (exists|a: int|
                    0 <= a < i && routes_reference((#[trigger] routing@.exact[a]).1, k)),
        decreases en - i,
    {
        let ghost before = out@;
        collect_route_keys(&routing.exact[i].1, &mut out);
        proof {
            assert(routing@.exact[i as int].1 == routes_view(routing.exact@[i as int].1@));
            assert forall|k: Seq<char>|
                crate::backend_pool::key_listed(out@, k) <==> (exists|a: int|
                    0 <= a < i + 1 && routes_reference((#[trigger] routing@.exact[a]).1, k)) by {
                if crate::backend_pool::key_listed(out@, k) {
                    if crate::backend_pool::key_listed(before, k) {
                        let a = choose|a: int|
                            0 <= a < i && routes_reference((#[trigger] routing@.exact[a]).1, k);
                        assert(routes_reference(routing@.exact[a].1, k));
                    } else {
                        assert(routes_reference(routing@.exact[i as int].1, k));
                    }
                }
            }
        }
        i += 1;
    }
    let wn = routing.wildcards.len();
    let mut w: usize = 0;
    while w < wn
        invariant
            w <= wn,
            forall|k: Seq<char>|
                crate::backend_pool::key_listed(out@, k) <==> ((exists|a: int|
                    0 <= a < routing@.exact.len() && routes_reference(
                        (#[trigger] routing@.exact[a]).1,
                        k,
                    )) || (exists|a: int|
                    0 <= a < w && routes_reference((#[trigger] routing@.wildcards[a]).1, k))),
        decreases wn - w,
    {
        let ghost before = out@;
        collect_route_keys(&routing.wildcards[w].1, &mut out);
        proof {
            assert(routing@.wildcards[w as int].1 == routes_view(routing.wildcards@[w as int].1@));
            assert forall|k: Seq<char>|
                crate::backend_pool::key_listed(out@, k) <==> ((exists|a: int|
                    0 <= a < routing@.exact.len() && routes_reference(
                        (#[trigger] routing@.exact[a]).1,
                        k,
                    )) || (exists|a: int|
                    0 <= a < w + 1 && routes_reference(
                        (#[trigger] routing@.wildcards[a]).1,
                        k,
                    ))) by {
                if crate::backend_pool::key_listed(out@, k) && !crate::backend_pool::key_listed(
                    before,
                    k,
                ) {
                    assert(routes_reference(routing@.wildcards[w as int].1, k));
                }
            }
        }
        w += 1;
    }
    if let Some(d) = &routing.default {
        let dn = d.len();
        let mut j: usize = 0;
        while j < dn
            invariant
                j <= dn,
                dn == d@.len(),
                routing@.default == Some(backends_view(d@)),
                forall|k: Seq<char>|
                    crate::backend_pool::key_listed(out@, k) <==> ((exists|a: int|
                        0 <= a < routing@.exact.len() && routes_reference(
                            (#[trigger] routing@.exact[a]).1,
                            k,
                        )) || (exists|a: int|
                        0 <= a < routing@.wildcards.len() && routes_reference(
                            (#[trigger] routing@.wildcards[a]).1,
                            k,
                        )) || (exists|l: int|
                        0 <= l < j && (#[trigger] backends_view(d@)[l]).0 == k)),
            decreases dn - j,
        {
            let ghost before = out@;
            out.push(d[j].key.clone());
            proof {
                assert(out@.drop_last() =~= before);
                assert(out@[out@.len() - 1]@ == backends_view(d@)[j as int].0);
                assert forall|k: Seq<char>| #![trigger crate::backend_pool::key_listed(out@, k)]
                    crate::backend_pool::key_listed(out@, k) <==> ((exists|a: int|
                        0 <= a < routing@.exact.len() && routes_reference(
                            (#[trigger] routing@.exact[a]).1,
                            k,
                        )) || (exists|a: int|
                        0 <= a < routing@.wildcards.len() && routes_reference(
                            (#[trigger] routing@.wildcards[a]).1,
                            k,
                        )) || (exists|l: int|
                        0 <= l < j + 1 && (#[trigger] backends_view(d@)[l]).0 == k)) by {
                    if crate::backend_pool::key_listed(out@, k) {
                        let ww = choose|ww: int|
                            0 <= ww < out@.len() && (#[trigger] out@[ww])@ == k;
                        if ww < out@.len() - 1 {
                            assert(crate::backend_pool::key_listed(before, k));
                        } else {
                            assert(backends_view(d@)[j as int].0 == k);
                        }
                    }
                    if exists|l: int| 0 <= l < j + 1 && (#[trigger] backends_view(d@)[l]).0 == k {
                        let l = choose|l: int|
                            0 <= l < j + 1 && (#[trigger] backends_view(d@)[l]).0 == k;
                        if l < j {
                            assert(crate::backend_pool::key_listed(before, k));
                            let ww = choose|ww: int|
                                0 <= ww < before.len() && (#[trigger] before[ww])@ == k;
                            assert(out@[ww]@ == k);
                        } else {
                            assert(out@[out@.len() - 1]@ == k);
                        }
                    }
                    if (exists|a: int|
                        0 <= a < routing@.exact.len() && routes_reference(
                            (#[trigger] routing@.exact[a]).1,
                            k,
                        )) || (exists|a: int|
                        0 <= a < routing@.wildcards.len() && routes_reference(
                            (#[trigger] routing@.wildcards[a]).1,
                            k,
                        )) {
                        assert(crate::backend_pool::key_listed(before, k));
                        let ww = choose|ww: int|
                            0 <= ww < before.len() && (#[trigger] before[ww])@ == k;
                        assert(out@[ww]@ == k);
                    }
                }
            }
            j += 1;
        }
        proof {
            assert(routing@.default == Some(backends_view(d@)));
            assert forall|k: Seq<char>| #![trigger crate::backend_pool::key_listed(out@, k)]
                crate::backend_pool::key_listed(out@, k) <==> rs_references(routing@, k) by {
                assert(routing@.exact.len() == routing.exact@.len());
                assert(routing@.wildcards.len() == routing.wildcards@.len());
                let dd = backends_view(d@);
                assert(dd.len() == d@.len());
                let d2 = routing@.default.get_Some_0();
                assert(d2 == dd);
                if crate::backend_pool::key_listed(out@, k) {
                    if exists|l: int| 0 <= l < dn && (#[trigger] dd[l]).0 == k {
                        let l = choose|l: int| 0 <= l < dn && (#[trigger] dd[l]).0 == k;
                        assert(0 <= l < d2.len() && (#[trigger] d2[l]).0 == k);
                        assert(rs_references(routing@, k));
                    } else {
                        assert(rs_references(routing@, k));
                    }
                }
                if rs_references(routing@, k) {
                    if exists|l: int| 0 <= l < d2.len() && (#[trigger] d2[l]).0 == k {
                        let l = choose|l: int| 0 <= l < d2.len() && (#[trigger] d2[l]).0 == k;
                        assert(0 <= l < dn && (#[trigger] dd[l]).0 == k);
                        assert(crate::backend_pool::key_listed(out@, k));
                    } else {
                        assert(crate::backend_pool::key_listed(out@, k));
                    }
                }
            }
        }
    } else {
        proof {
            assert(routing@.default is None);
            assert forall|k: Seq<char>| #![trigger crate::backend_pool::key_listed(out@, k)]
                crate::backend_pool::key_listed(out@, k) <==> rs_references(routing@, k) by {
                assert(routing@.exact.len() == routing.exact@.len());
                assert(routing@.wildcards.len() == routing.wildcards@.len());
            }
        }
    }
    out
}

} // verus!

verus! {

/// The hostname key a request resolves under: the `Host` value with any
/// `:port` suffix stripped, IPv6-bracket aware, lowercased.
pub open spec fn host_key(h: Seq<char>) -> Seq<char> {
    lower_seq(host_of(h))
}

/// Strip any `:port` suffix and lowercase a `Host` header value.
pub fn normalize_host(host: &str) -> (r: String)
    ensures
        r@ == host_key(host@),
{
    let (host_part, _) = parse_host_and_port(host);
    crate::strutil::str_to_lowercase(host_part)
}

/// First vhost name equal to `h`, or -1.
pub open spec fn exact_find(s: Seq<(Seq<char>, Seq<RouteEntryView>)>, h: Seq<char>) -> int
    decreases s.len(),
{
    if s.len() == 0 {
        -1
    } else if s[0].0 == h {
        0
    } else {
        let r = exact_find(s.skip(1), h);
        if r < 0 {
            -1
        } else {
            r + 1
        }
    }
}

/// First wildcard vhost whose pattern matches `h` and whose routes accept
/// the request, or -1.
pub open spec fn wild_find(
    s: Seq<(Seq<char>, Seq<RouteEntryView>)>,
    h: Seq<char>,
    path: Seq<char>,
    method: Seq<char>,
    headers: Seq<(Seq<char>, Seq<char>)>,
    query: Option<Seq<char>>,
) -> int
    decreases s.len(),
{
    if s.len() == 0 {
        -1
    } else if wildcard_matches(s[0].0, h) && crate::vhost_director::first_match_idx(
        s[0].1,
        path,
        method,
        headers,
        query,
    ) >= 0 {
        0
    } else {
        let r = wild_find(s.skip(1), h, path, method, headers, query);
        if r < 0 {
            -1
        } else {
            r + 1
        }
    }
}

/// Which tier answers the request: an exact vhost whose routes accept it,
/// else the first accepting wildcard vhost, else the global default, else
/// nothing.
pub enum RootChoice {
    ViaExact(int),
    ViaWild(int),
    ViaDefault,
    NoMatch,
}

/// The view a root director presents: vhost names with their route views,
/// plus the default backends and the pool entries.
#[verifier::ext_equal]
pub struct GhostDirectorView {
    pub exact: Seq<(Seq<char>, Seq<RouteEntryView>)>,
    pub wildcards: Seq<(Seq<char>, Seq<RouteEntryView>)>,
    pub default: Option<Seq<(Seq<char>, u32)>>,
    pub pool: Seq<(Seq<char>, u64)>,
}

/// The hostname-tier decision, as a pure function of the view and the
/// request.
pub open spec fn root_choice(
    v: GhostDirectorView,
    h: Seq<char>,
    path: Seq<char>,
    method: Seq<char>,
    headers: Seq<(Seq<char>, Seq<char>)>,
    query: Option<Seq<char>>,
) -> RootChoice {
    let e = exact_find(v.exact, h);
    if e >= 0 && crate::vhost_director::first_match_idx(v.exact[e].1, path, method, headers, query)
        >= 0 {
        RootChoice::ViaExact(e)
    } else {
        let w = wild_find(v.wildcards, h, path, method, headers, query);
        if w >= 0 {
            RootChoice::ViaWild(w)
        } else {
            match v.default {
                Some(d) => if d.len() > 0 {
                    RootChoice::ViaDefault
                } else {
                    RootChoice::NoMatch
                },
                None => RootChoice::NoMatch,
            }
        }
    }
}

pub proof fn lemma_exact_find(s: Seq<(Seq<char>, Seq<RouteEntryView>)>, h: Seq<char>)
    ensures
        exact_find(s, h) == -1 ==> (forall|i: int| 0 <= i < s.len() ==> (#[trigger] s[i]).0 != h),
        exact_find(s, h) != -1 ==> 0 <= exact_find(s, h) < s.len() && s[exact_find(s, h)].0 == h
            && (forall|i: int| 0 <= i < exact_find(s, h) ==> (#[trigger] s[i]).0 != h),
    decreases s.len(),
{
    if s.len() == 0 {
    } else if s[0].0 == h {
    } else {
        lemma_exact_find(s.skip(1), h);
        let t = s.skip(1);
        assert(forall|i: int| 0 <= i < t.len() ==> #[trigger] t[i] == s[i + 1]);
        let r = exact_find(t, h);
        if r == -1 {
            assert forall|i: int| 0 <= i < s.len() implies (#[trigger] s[i]).0 != h by {
                if i > 0 {
                    assert(t[i - 1] == s[i]);
                }
            }
        } else {
            assert(s[r + 1] == t[r]);
            assert forall|i: int| 0 <= i < r + 1 implies (#[trigger] s[i]).0 != h by {
                if i > 0 {
                    assert(t[i - 1] == s[i]);
                }
            }
        }
    }
}

pub proof fn lemma_wild_find(
    s: Seq<(Seq<char>, Seq<RouteEntryView>)>,
    h: Seq<char>,
    path: Seq<char>,
    method: Seq<char>,
    headers: Seq<(Seq<char>, Seq<char>)>,
    query: Option<Seq<char>>,
)
    ensures
        wild_find(s, h, path, method, headers, query) == -1 ==> (forall|i: int|
            0 <= i < s.len() ==> !(wildcard_matches((#[trigger] s[i]).0, h)
                && crate::vhost_director::first_match_idx(s[i].1, path, method, headers, query)
                >= 0)),
        wild_find(s, h, path, method, headers, query) != -1 ==> {
            let r = wild_find(s, h, path, method, headers, query);
            &&& 0 <= r < s.len()
            &&& wildcard_matches(s[r].0, h)
            &&& crate::vhost_director::first_match_idx(s[r].1, path, method, headers, query) >= 0
            &&& (forall|i: int|
                0 <= i < r ==> !(wildcard_matches((#[trigger] s[i]).0, h)
                    && crate::vhost_director::first_match_idx(s[i].1, path, method, headers, query)
                    >= 0))
        },
    decreases s.len(),
{
    if s.len() == 0 {
    } else if wildcard_matches(s[0].0, h) && crate::vhost_director::first_match_idx(
        s[0].1,
        path,
        method,
        headers,
        query,
    ) >= 0 {
    } else {
        lemma_wild_find(s.skip(1), h, path, method, headers, query);
        let t = s.skip(1);
        assert(forall|i: int| 0 <= i < t.len() ==> #[trigger] t[i] == s[i + 1]);
        let r = wild_find(t, h, path, method, headers, query);
        if r == -1 {
            assert forall|i: int|
                0 <= i < s.len() implies !(wildcard_matches((#[trigger] s[i]).0, h)
                && crate::vhost_director::first_match_idx(s[i].1, path, method, headers, query)
                >= 0) by {
                if i > 0 {
                    assert(t[i - 1] == s[i]);
                }
            }
        } else {
            assert(s[r + 1] == t[r]);
            assert forall|i: int|
                0 <= i < r + 1 implies !(wildcard_matches((#[trigger] s[i]).0, h)
                && crate::vhost_director::first_match_idx(s[i].1, path, method, headers, query)
                >= 0) by {
                if i > 0 {
                    assert(t[i - 1] == s[i]);
                }
            }
        }
    }
}

} // verus!

verus! {

/// How a root-tier resolution ends.
pub enum Resolution {
    /// Forward to the pool entry `key` whose native handle is `handle`.
    Upstream { key: String, handle: u64 },
    /// No vhost or route matched: the 404 synthetic backend answers.
    NotFound,
    /// A route matched but nothing is selectable: the 500 synthetic
    /// backend answers.
    InternalError,
    /// A redirect filter short-circuited with this captured configuration.
    Redirect(crate::redirect_backend::RedirectConfig),
}

/// What a root resolve produced.
pub struct RootResolveOutcome {
    pub resolution: Resolution,
    /// The response-header modifier to apply at delivery, when the matched
    /// route carries one.
    pub response_filter: Option<crate::config::RequestHeaderFilter>,
}

/// The relation a resolution through one vhost's route list satisfies.
pub open spec fn via_vhost_clause(
    routes: Seq<RouteEntryView>,
    url0: Seq<char>,
    hv: Seq<(Seq<char>, Seq<char>)>,
    method: Seq<char>,
    q: Option<Seq<char>>,
    url1: Seq<char>,
    hv1: Seq<(Seq<char>, Seq<char>)>,
    r: RootResolveOutcome,
    pool_entries: Seq<(Seq<char>, u64)>,
) -> bool {
    let path = split_path(url0);
    let fm = crate::vhost_director::first_match_idx(routes, path, method, hv, q);
    &&& fm >= 0
    &&& {
        let route = routes[fm];
        match crate::vhost_director::route_redirect(route) {
            Some(rr) => {
                &&& r.resolution matches Resolution::Redirect(rc) && rc@
                    == crate::vhost_director::redirect_capture(rr, route.path_match, url0, hv)
                &&& hv1 == hv
                &&& url1 == url0
                &&& r.response_filter is None
            },
            None => {
                &&& hv1 == crate::vhost_director::headers_after_filters(hv, route)
                &&& url1 == crate::vhost_director::url_after_filters(url0, route)
                &&& (match crate::vhost_director::route_response_filter(route) {
                    Some(mv) => r.response_filter matches Some(m) && m@ == mv,
                    None => r.response_filter is None,
                })
                &&& (route.backends.len() == 0 || (route.backends.len() != 1
                    && crate::vhost_director::total_weight_pairs(route.backends) == 0)
                    ==> r.resolution is InternalError)
                &&& (route.backends.len() == 1 || (route.backends.len() > 1
                    && crate::vhost_director::total_weight_pairs(route.backends) > 0) ==> (
                r.resolution matches Resolution::Upstream { key, handle } && (exists|i: int|
                    0 <= i < route.backends.len() && key@ == (#[trigger] route.backends[i]).0) && (
                exists|j: int|
                    0 <= j < pool_entries.len() && #[trigger] pool_entries[j] == (key@, handle))))
            },
        }
    }
}

/// Root director: hostname dispatch to per-vhost directors, the global
/// default backends, and the backend pool.
#[derive(Debug)]
pub struct GhostDirector {
    pub exact: Vec<(String, crate::vhost_director::VhostDirector)>,
    pub wildcards: Vec<(String, crate::vhost_director::VhostDirector)>,
    pub default: Option<Vec<WeightedBackendRef>>,
    pub pool: crate::backend_pool::BackendPool,
}

pub open spec fn director_list_view(
    s: Seq<(String, crate::vhost_director::VhostDirector)>,
) -> Seq<(Seq<char>, Seq<RouteEntryView>)> {
    s.map_values(
        |e: (String, crate::vhost_director::VhostDirector)| (e.0@, routes_view(e.1.routes@)),
    )
}

impl GhostDirector {
    /// The routing view: names, route views, default and pool entries.
    pub open spec fn view_spec(&self) -> GhostDirectorView {
        GhostDirectorView {
            exact: director_list_view(self.exact@),
            wildcards: director_list_view(self.wildcards@),
            default: match self.default {
                Some(d) => Some(backends_view(d@)),
                None => None,
            },
            pool: self.pool.entries_view(),
        }
    }

    /// Every vhost director is well-formed, every referenced key has a
    /// pool entry, the default list is bounded and pool-backed, and the
    /// pool itself is well-formed.
    pub open spec fn wf(&self) -> bool {
        &&& (forall|i: int|
            0 <= i < self.exact@.len() ==> (#[trigger] self.exact@[i]).1.wf()
                && routes_keys_in_pool(routes_view(self.exact@[i].1.routes@), self.pool))
        &&& (forall|i: int|
            0 <= i < self.wildcards@.len() ==> (#[trigger] self.wildcards@[i]).1.wf()
                && routes_keys_in_pool(routes_view(self.wildcards@[i].1.routes@), self.pool))
        &&& (match self.default {
            Some(d) => d@.len() < 0x1_0000_0000 && (forall|j: int|
                0 <= j < d@.len() ==> self.pool.has_key((#[trigger] d@[j]).key@)),
            None => true,
        })
        &&& self.pool.wf()
    }

    /// Resolve one request: normalize the `Host` value, find the vhost
    /// (exact name first, then wildcard patterns in order), delegate to
    /// its route tier, and map the selected key through the pool. With no
    /// vhost, the global default backends answer; with nothing at all,
    /// the resolution is `NotFound`.
    #[verifier::loop_isolation(false)]
    pub fn resolve(
        &mut self,
        host: &str,
        url: &mut String,
        method: &str,
        headers: &mut Vec<(String, String)>,
        now: u64,
    ) -> (r: RootResolveOutcome)
        requires
            old(self).wf(),
        ensures
            final(self).wf(),
            final(self).view_spec() == old(self).view_spec(),
            ({
                let v = old(self).view_spec();
                let h = host_key(host@);
                let path = split_path(old(url)@);
                let q = split_query(old(url)@);
                let hv = pairs_view(old(headers)@);
                match root_choice(v, h, path, method@, hv, q) {
                    RootChoice::NoMatch => r.resolution is NotFound && final(headers)@ == old(
                        headers,
                    )@ && final(url)@ == old(url)@ && r.response_filter is None,
                    RootChoice::ViaDefault => {
                        &&& final(headers)@ == old(headers)@
                        &&& final(url)@ == old(url)@
                        &&& r.response_filter is None
                        &&& (v.default matches Some(d) && d.len() > 0)
                        &&& (r.resolution matches Resolution::Upstream { key, handle } ==> (exists|
                            i: int,
                        |
                            0 <= i < v.default.get_Some_0().len() && key@ == (
                            #[trigger] v.default.get_Some_0()[i]).0) && (exists|j: int|
                            0 <= j < v.pool.len() && #[trigger] v.pool[j] == (key@, handle)))
                        &&& (r.resolution is InternalError || r.resolution matches
                            Resolution::Upstream { key, handle })
                        &&& (v.default.get_Some_0().len() == 1
                            || crate::vhost_director::total_weight_pairs(v.default.get_Some_0())
                            > 0 ==> r.resolution matches Resolution::Upstream { key, handle })
                        &&& (r.resolution is InternalError
                            ==> crate::vhost_director::total_weight_pairs(v.default.get_Some_0())
                            == 0)
                    },
                    RootChoice::ViaExact(e) => via_vhost_clause(
                        v.exact[e].1,
                        old(url)@,
                        hv,
                        method@,
                        q,
                        final(url)@,
                        pairs_view(final(headers)@),
                        r,
                        v.pool,
                    ),
                    RootChoice::ViaWild(w) => via_vhost_clause(
                        v.wildcards[w].1,
                        old(url)@,
                        hv,
                        method@,
                        q,
                        final(url)@,
                        pairs_view(final(headers)@),
                        r,
                        v.pool,
                    ),
                }
            }),
    {
        let ghost v = self.view_spec();
        let ghost hv = pairs_view(headers@);
        let ghost q = split_query(url@);
        let hkey = normalize_host(host);
        proof {
            lemma_exact_find(v.exact, hkey@);
        }
        let exact_hit = find_exact_name(&self.exact, hkey.as_str());
        proof {
            assert(director_list_view(self.exact@) == v.exact);
        }
        if let Some(ei) = exact_hit {
            let entry = vstd::std_specs::vec::vec_index_mut(&mut self.exact, ei);
            let out = entry.1.resolve(url, method, headers, now);
            proof {
                assert(routes_view(entry.1.routes@) == v.exact[ei as int].1);
            }
            match out {
                Some(o) => {
                    proof {
                        assert(director_list_view(self.exact@) =~= v.exact);
                        assert(self.view_spec() =~= v);
                        assert forall|a: int|
                            0 <= a < self.exact@.len() implies (#[trigger] self.exact@[a]).1.wf()
                            && routes_keys_in_pool(
                            routes_view(self.exact@[a].1.routes@),
                            self.pool,
                        ) by {
                            if a != ei as int {
                                assert(self.exact@[a] == old(self).exact@[a]);
                            }
                        }
                    }
                    proof {
                        let rts = v.exact[ei as int].1;
                        let fm = crate::vhost_director::first_match_idx(
                            rts,
                            split_path(old(url)@),
                            method@,
                            hv,
                            q,
                        );
                        crate::vhost_director::lemma_first_match_idx(
                            rts,
                            split_path(old(url)@),
                            method@,
                            hv,
                            q,
                        );
                        assert(0 <= fm < rts.len());
                        crate::vhost_director::lemma_total_weight_pairs_nonneg(rts[fm].backends);
                        assert(routes_keys_in_pool(
                            routes_view(self.exact@[ei as int].1.routes@),
                            self.pool,
                        ));
                        match &o.decision {
                            crate::vhost_director::VhostResolution::Upstream(key) => {
                                let bi = choose|bi: int|
                                    0 <= bi < rts[fm].backends.len() && key@ == (
                                    #[trigger] rts[fm].backends[bi]).0;
                                assert(self.pool.has_key(rts[fm].backends[bi].0));
                            },
                            _ => {},
                        }
                    }
                    return self.finish_vhost_outcome(o);
                },
                None => {
                    proof {
                        assert(director_list_view(self.exact@) =~= v.exact);
                        assert(self.view_spec() =~= v);
                        assert forall|a: int|
                            0 <= a < self.exact@.len() implies (#[trigger] self.exact@[a]).1.wf()
                            && routes_keys_in_pool(
                            routes_view(self.exact@[a].1.routes@),
                            self.pool,
                        ) by {
                            if a != ei as int {
                                assert(self.exact@[a] == old(self).exact@[a]);
                            }
                        }
                    }
                },
            }
        }
        proof {
            lemma_wild_find(v.wildcards, hkey@, split_path(old(url)@), method@, hv, q);
        }
        let wn = self.wildcards.len();
        let mut w: usize = 0;
        while w < wn
            invariant
                w <= wn,
                wn == self.wildcards@.len(),
                self.default == old(self).default,
                self.pool == old(self).pool,
                self.view_spec() == v,
                self.wf(),
                url@ == old(url)@,
                headers@ == old(headers)@,
                forall|j: int|
                    0 <= j < w ==> !(wildcard_matches((#[trigger] v.wildcards[j]).0, hkey@)
                        && crate::vhost_director::first_match_idx(
                            v.wildcards[j].1,
                            split_path(old(url)@),
                            method@,
                            hv,
                            q,
                        ) >= 0),
            decreases wn - w,
        {
            let ghost pre = *self;
            proof {
                assert(v.wildcards[w as int].0 == self.wildcards@[w as int].0@);
            }
            if matches_wildcard(self.wildcards[w].0.as_str(), hkey.as_str()) {
                let entry = vstd::std_specs::vec::vec_index_mut(&mut self.wildcards, w);
                let out = entry.1.resolve(url, method, headers, now);
                proof {
                    assert(routes_view(entry.1.routes@) == v.wildcards[w as int].1);
                }
                match out {
                    Some(o) => {
                        proof {
                            assert(director_list_view(self.wildcards@) =~= v.wildcards);
                            assert(self.view_spec() =~= v);
                            assert forall|a: int|
                                0 <= a < self.wildcards@.len() implies (
                            #[trigger] self.wildcards@[a]).1.wf() && routes_keys_in_pool(
                                routes_view(self.wildcards@[a].1.routes@),
                                self.pool,
                            ) by {
                                if a != w as int {
                                    assert(self.wildcards@[a] == pre.wildcards@[a]);
                                }
                            }
                            assert(wild_find(
                                v.wildcards,
                                hkey@,
                                split_path(old(url)@),
                                method@,
                                hv,
                                q,
                            ) == w as int) by {
                                let f = wild_find(
                                    v.wildcards,
                                    hkey@,
                                    split_path(old(url)@),
                                    method@,
                                    hv,
                                    q,
                                );
                                lemma_wild_find(
                                    v.wildcards,
                                    hkey@,
                                    split_path(old(url)@),
                                    method@,
                                    hv,
                                    q,
                                );
                            }
                        }
                        proof {
                            let rts = v.wildcards[w as int].1;
                            let fm = crate::vhost_director::first_match_idx(
                                rts,
                                split_path(old(url)@),
                                method@,
                                hv,
                                q,
                            );
                            crate::vhost_director::lemma_first_match_idx(
                                rts,
                                split_path(old(url)@),
                                method@,
                                hv,
                                q,
                            );
                            assert(0 <= fm < rts.len());
                            crate::vhost_director::lemma_total_weight_pairs_nonneg(
                                rts[fm].backends,
                            );
                            assert(routes_keys_in_pool(
                                routes_view(self.wildcards@[w as int].1.routes@),
                                self.pool,
                            ));
                            match &o.decision {
                                crate::vhost_director::VhostResolution::Upstream(key) => {
                                    let bi = choose|bi: int|
                                        0 <= bi < rts[fm].backends.len() && key@ == (
                                        #[trigger] rts[fm].backends[bi]).0;
                                    assert(self.pool.has_key(rts[fm].backends[bi].0));
                                },
                                _ => {},
                            }
                        }
                        return self.finish_vhost_outcome(o);
                    },
                    None => {
                        proof {
                            assert(director_list_view(self.wildcards@) =~= v.wildcards);
                            assert(self.view_spec() =~= v);
                            assert forall|a: int|
                                0 <= a < self.wildcards@.len() implies (
                            #[trigger] self.wildcards@[a]).1.wf() && routes_keys_in_pool(
                                routes_view(self.wildcards@[a].1.routes@),
                                self.pool,
                            ) by {
                                if a != w as int {
                                    assert(self.wildcards@[a] == pre.wildcards@[a]);
                                }
                            }
                        }
                    },
                }
            }
            w += 1;
        }
        // Global default fallback.
        let has_default = match &self.default {
            Some(d) => d.len() > 0,
            None => false,
        };
        if has_default {
            let picked: Option<(String, u64)> = {
                match &self.default {
                    Some(d) => {
                        proof {
                            crate::vhost_director::lemma_total_weight_view(d@);
                            assert(v.default.get_Some_0() == backends_view(d@));
                        }
                        match select_backend_weighted(d) {
                            Some(b) => {
                                let key = b.key.clone();
                                proof {
                                    let bi = choose|bi: int|
                                        0 <= bi < d@.len() && *b == d@[bi];
                                    assert(v.default.get_Some_0()[bi] == (d@[bi].key@, d@[bi].weight));
                                    assert(self.pool.has_key(key@));
                                }
                                match self.pool.get(key.as_str()) {
                                    Some(h) => Some((key, h)),
                                    None => {
                                        proof {
                                            assert(false);
                                        }
                                        None
                                    },
                                }
                            },
                            None => None,
                        }
                    },
                    None => None,
                }
            };
            match picked {
                Some((key, handle)) => {
                    proof {
                        let j = choose|j: int|
                            0 <= j < self.pool.entries@.len() && (
                            #[trigger] self.pool.entries@[j]).0@ == key@
                                && self.pool.entries@[j].1 == handle;
                        assert(v.pool[j] == (key@, handle));
                    }
                    return RootResolveOutcome {
                        resolution: Resolution::Upstream { key, handle },
                        response_filter: None,
                    };
                },
                None => {
                    return RootResolveOutcome {
                        resolution: Resolution::InternalError,
                        response_filter: None,
                    };
                },
            }
        }
        RootResolveOutcome { resolution: Resolution::NotFound, response_filter: None }
    }

    /// Map a vhost-tier outcome to the root resolution, looking a selected
    /// key up in the pool.
    #[verifier::loop_isolation(false)]
    fn finish_vhost_outcome(&self, o: crate::vhost_director::ResolveOutcome) -> (r:
        RootResolveOutcome)
        requires
            self.pool.wf(),
            o.decision matches crate::vhost_director::VhostResolution::Upstream(key)
                ==> self.pool.has_key(key@),
        ensures
            r.response_filter == o.response_filter,
            match o.decision {
                crate::vhost_director::VhostResolution::Redirect(rc) => r.resolution matches
                    Resolution::Redirect(rc2) && rc2 == rc,
                crate::vhost_director::VhostResolution::InternalError => r.resolution
                    is InternalError,
                crate::vhost_director::VhostResolution::Upstream(key) => r.resolution matches
                    Resolution::Upstream { key: k2, handle } && k2 == key && (exists|j: int|
                    0 <= j < self.pool.entries_view().len()
                        && #[trigger] self.pool.entries_view()[j] == (key@, handle)),
            },
    {
        match o.decision {
            crate::vhost_director::VhostResolution::Redirect(rc) => RootResolveOutcome {
                resolution: Resolution::Redirect(rc),
                response_filter: o.response_filter,
            },
            crate::vhost_director::VhostResolution::InternalError => RootResolveOutcome {
                resolution: Resolution::InternalError,
                response_filter: o.response_filter,
            },
            crate::vhost_director::VhostResolution::Upstream(key) => {
                match self.pool.get(key.as_str()) {
                    Some(handle) => {
                        proof {
                            let j = choose|j: int|
                                0 <= j < self.pool.entries@.len() && (
                                #[trigger] self.pool.entries@[j]).0@ == key@
                                    && self.pool.entries@[j].1 == handle;
                            assert(self.pool.entries_view()[j] == (key@, handle));
                        }
                        RootResolveOutcome {
                            resolution: Resolution::Upstream { key, handle },
                            response_filter: o.response_filter,
                        }
                    },
                    None => {
                        proof {
                            assert(false);
                        }
                        RootResolveOutcome {
                            resolution: Resolution::InternalError,
                            response_filter: o.response_filter,
                        }
                    },
                }
            },
        }
    }
}

} // verus!

verus! {

/// Index of the first vhost whose name equals the normalized host, if any.
#[verifier::loop_isolation(false)]
pub fn find_exact_name(
    list: &Vec<(String, crate::vhost_director::VhostDirector)>,
    hkey: &str,
) -> (r: Option<usize>)
    ensures
        match r {
            Some(i) => i < list@.len() && exact_find(director_list_view(list@), hkey@) == i as int,
            None => exact_find(director_list_view(list@), hkey@) == -1,
        },
{
    let ghost lv = director_list_view(list@);
    proof {
        lemma_exact_find(lv, hkey@);
    }
    let n = list.len();
    let mut i: usize = 0;
    while i < n
        invariant
            i <= n,
            forall|j: int| 0 <= j < i ==> (#[trigger] lv[j]).0 != hkey@,
        decreases n - i,
    {
        proof {
            assert(lv[i as int].0 == list@[i as int].0@);
        }
        if str_eq(list[i].0.as_str(), hkey) {
            proof {
                assert(exact_find(lv, hkey@) == i as int) by {
                    let f = exact_find(lv, hkey@);
                    assert(lv[i as int].0 == hkey@);
                    if f == -1 {
                        assert(lv[i as int].0 != hkey@);
                    } else {
                        if f < i as int {
                            assert(lv[f].0 == hkey@);
                            assert(lv[f].0 != hkey@);
                        }
                        if f > i as int {
                            assert(lv[i as int].0 != hkey@);
                        }
                    }
                }
            }
            return Some(i);
        }
        i += 1;
    }
    None
}

} // verus!

verus! {

/// Backend lists of the configuration are small enough to sum in a u64.
pub open spec fn config_bounded(c: crate::config::ConfigV2) -> bool {
    forall|i: int|
        0 <= i < c.vhosts@.len() ==> ((forall|k: int|
            0 <= k < (#[trigger] c.vhosts@[i]).1.routes@.len() ==> (
            #[trigger] c.vhosts@[i].1.routes@[k]).backends@.len() < 0x1_0000_0000)
            && c.vhosts@[i].1.default_backends@.len() < 0x1_0000_0000)
}

/// Backend lists of a compiled routing view are small enough to sum.
pub open spec fn routes_bounded(routes: Seq<RouteEntryView>) -> bool {
    forall|i: int| 0 <= i < routes.len() ==> (#[trigger] routes[i]).backends.len() < 0x1_0000_0000
}

pub open spec fn state_bounded(v: RoutingStateView) -> bool {
    &&& (forall|i: int| 0 <= i < v.exact.len() ==> routes_bounded((#[trigger] v.exact[i]).1))
    &&& (forall|i: int| 0 <= i < v.wildcards.len() ==> routes_bounded((#[trigger] v.wildcards[i]).1))
    &&& (match v.default {
        Some(d) => d.len() < 0x1_0000_0000,
        None => true,
    })
}

/// Every element of a sorted compile prefix is the compiled view of some
/// source route.
pub proof fn lemma_sorted_prefix_elements(routes: Seq<crate::config::Route>, k: int)
    requires
        0 <= k <= routes.len(),
    ensures
        forall|i: int|
            0 <= i < sorted_routes_prefix(routes, k).len() ==> (exists|j: int|
                0 <= j < k && #[trigger] sorted_routes_prefix(routes, k)[i] == route_view_of(
                    routes[j],
                    j,
                )),
    decreases k,
{
    if k > 0 {
        lemma_sorted_prefix_elements(routes, k - 1);
        let prev = sorted_routes_prefix(routes, k - 1);
        let e = route_view_of(routes[k - 1], k - 1);
        lemma_insert_route_elements(prev, e);
        assert forall|i: int|
            0 <= i < sorted_routes_prefix(routes, k).len() implies (exists|j: int|
            0 <= j < k && #[trigger] sorted_routes_prefix(routes, k)[i] == route_view_of(
                routes[j],
                j,
            )) by {
            let cur = sorted_routes_prefix(routes, k);
            assert(cur == insert_route_spec(prev, e));
            if cur[i] == e {
                assert(cur[i] == route_view_of(routes[k - 1], k - 1));
            } else {
                let w = choose|w: int| 0 <= w < prev.len() && cur[i] == #[trigger] prev[w];
                let j = choose|j: int|
                    0 <= j < k - 1 && #[trigger] prev[w] == route_view_of(routes[j], j);
                assert(cur[i] == route_view_of(routes[j], j));
            }
        }
    }
}

/// A bounded configuration compiles to a bounded routing view.
pub proof fn lemma_build_bounded(c: crate::config::ConfigV2)
    requires
        config_bounded(c),
    ensures
        state_bounded(build_view(c)),
{
    let v = build_view(c);
    c.vhosts@.filter_lemma(exact_pred());
    c.vhosts@.filter_lemma(wild_pred());
    assert forall|i: int| 0 <= i < v.exact.len() implies routes_bounded(
        (#[trigger] v.exact[i]).1,
    ) by {
        let fe = c.vhosts@.filter(exact_pred());
        assert(v.exact[i] == vhost_entry_view(fe[i]));
        lemma_filter_vhost_subset(c.vhosts@, exact_pred());
        assert(fe.contains(fe[i]));
        assert(c.vhosts@.contains(fe[i]));
        let j = choose|j: int| 0 <= j < c.vhosts@.len() && c.vhosts@[j] == fe[i];
        lemma_vhost_routes_bounded(c.vhosts@[j].1);
    }
    assert forall|i: int| 0 <= i < v.wildcards.len() implies routes_bounded(
        (#[trigger] v.wildcards[i]).1,
    ) by {
        let fw = c.vhosts@.filter(wild_pred());
        assert(v.wildcards[i] == vhost_entry_view(fw[i]));
        lemma_filter_vhost_subset(c.vhosts@, wild_pred());
        assert(fw.contains(fw[i]));
        assert(c.vhosts@.contains(fw[i]));
        let j = choose|j: int| 0 <= j < c.vhosts@.len() && c.vhosts@[j] == fw[i];
        lemma_vhost_routes_bounded(c.vhosts@[j].1);
    }
}

/// Every element of a filtered vhost list occurs in the original.
proof fn lemma_filter_vhost_subset(
    s: Seq<(String, crate::config::VHostV2)>,
    pred: spec_fn((String, crate::config::VHostV2)) -> bool,
)
    ensures
        forall|x: (String, crate::config::VHostV2)|
            #[trigger] s.filter(pred).contains(x) ==> s.contains(x),
    decreases s.len(),
{
    reveal(Seq::filter);
    if s.len() > 0 {
        lemma_filter_vhost_subset(s.drop_last(), pred);
        assert forall|x: (String, crate::config::VHostV2)|
            #[trigger] s.filter(pred).contains(x) implies s.contains(x) by {
            let f = s.filter(pred);
            let i = choose|i: int| 0 <= i < f.len() && f[i] == x;
            let sub = s.drop_last().filter(pred);
            if pred(s.last()) && i == f.len() - 1 {
                assert(s[s.len() - 1] == x);
            } else {
                assert(sub[i] == x);
                assert(sub.contains(x));
                let j = choose|j: int| 0 <= j < s.drop_last().len() && s.drop_last()[j] == x;
                assert(s[j] == x);
            }
        }
    }
}

/// A bounded vhost compiles to a bounded route list.
proof fn lemma_vhost_routes_bounded(v: crate::config::VHostV2)
    requires
        (forall|k: int|
            0 <= k < v.routes@.len() ==> (#[trigger] v.routes@[k]).backends@.len()
                < 0x1_0000_0000),
        v.default_backends@.len() < 0x1_0000_0000,
    ensures
        routes_bounded(vhost_routes_view(v)),
{
    lemma_sorted_prefix_elements(v.routes@, v.routes@.len() as int);
    let base = sorted_routes_prefix(v.routes@, v.routes@.len() as int);
    assert forall|i: int| 0 <= i < vhost_routes_view(v).len() implies (
    #[trigger] vhost_routes_view(v)[i]).backends.len() < 0x1_0000_0000 by {
        let rl = vhost_routes_view(v);
        if i < base.len() {
            assert(rl[i] == base[i]);
            let j = choose|j: int|
                0 <= j < v.routes@.len() && #[trigger] base[i] == route_view_of(v.routes@[j], j);
            assert(base[i].backends.len() == v.routes@[j].backends@.len());
        } else {
            assert(rl[i] == default_route_view(v.default_backends@, v.routes@.len() as int));
        }
    }
}

/// Build the per-vhost directors from a routing state, consuming it.
#[verifier::loop_isolation(false)]
fn directors_from_state(rs: RoutingState) -> (r: (
    Vec<(String, crate::vhost_director::VhostDirector)>,
    Vec<(String, crate::vhost_director::VhostDirector)>,
    Option<Vec<WeightedBackendRef>>,
))
    ensures
        director_list_view(r.0@) == rs@.exact,
        director_list_view(r.1@) == rs@.wildcards,
        (match r.2 {
            Some(d) => rs@.default == Some(backends_view(d@)),
            None => rs@.default is None,
        }),
        forall|i: int| 0 <= i < r.0@.len() ==> (#[trigger] r.0@[i]).1.stats.wf(),
        forall|i: int| 0 <= i < r.1@.len() ==> (#[trigger] r.1@[i]).1.stats.wf(),
{
    let RoutingState { mut exact, mut wildcards, default } = rs;
    let ghost ev = vhost_list_view(exact@);
    let ghost wv = vhost_list_view(wildcards@);
    let mut out_exact: Vec<(String, crate::vhost_director::VhostDirector)> = Vec::new();
    let mut i: usize = 0;
    let en = exact.len();
    while i < en
        invariant
            i <= en,
            en == ev.len(),
            exact@.len() == en - i,
            vhost_list_view(exact@) =~= ev.skip(i as int),
            director_list_view(out_exact@) =~= ev.subrange(0, i as int),
            forall|a: int| 0 <= a < out_exact@.len() ==> (#[trigger] out_exact@[a]).1.stats.wf(),
        decreases en - i,
    {
        let ghost before = exact@;
        let (name, routes) = exact.remove(0);
        proof {
            assert(exact@ =~= before.skip(1));
            assert(vhost_list_view(exact@) =~= vhost_list_view(before).skip(1));
            assert(vhost_list_view(before).skip(1) =~= ev.skip(i + 1));
            assert(vhost_list_view(before)[0] == ev[i as int]);
            assert((name@, routes_view(routes@)) == ev[i as int]);
        }
        let stored = name.clone();
        let vd = crate::vhost_director::VhostDirector::new(name, routes);
        out_exact.push((stored, vd));
        proof {
            assert(director_list_view(out_exact@) =~= ev.subrange(0, i + 1));
        }
        i += 1;
    }
    let mut out_wild: Vec<(String, crate::vhost_director::VhostDirector)> = Vec::new();
    let mut i: usize = 0;
    let wn = wildcards.len();
    while i < wn
        invariant
            i <= wn,
            wn == wv.len(),
            wildcards@.len() == wn - i,
            vhost_list_view(wildcards@) =~= wv.skip(i as int),
            director_list_view(out_wild@) =~= wv.subrange(0, i as int),
            forall|a: int| 0 <= a < out_wild@.len() ==> (#[trigger] out_wild@[a]).1.stats.wf(),
        decreases wn - i,
    {
        let ghost before = wildcards@;
        let (name, routes) = wildcards.remove(0);
        proof {
            assert(wildcards@ =~= before.skip(1));
            assert(vhost_list_view(wildcards@) =~= vhost_list_view(before).skip(1));
            assert(vhost_list_view(before).skip(1) =~= wv.skip(i + 1));
            assert(vhost_list_view(before)[0] == wv[i as int]);
            assert((name@, routes_view(routes@)) == wv[i as int]);
        }
        let stored = name.clone();
        let vd = crate::vhost_director::VhostDirector::new(name, routes);
        out_wild.push((stored, vd));
        proof {
            assert(director_list_view(out_wild@) =~= wv.subrange(0, i + 1));
        }
        i += 1;
    }
    proof {
        assert(ev.subrange(0, en as int) =~= ev);
        assert(wv.subrange(0, wn as int) =~= wv);
    }
    (out_exact, out_wild, default)
}

impl GhostDirector {
    /// Create a root director from a compiled routing state and the pool
    /// that backs it.
    #[verifier::loop_isolation(false)]
    pub fn new(routing: RoutingState, pool: crate::backend_pool::BackendPool) -> (r: GhostDirector)
        requires
            pool.wf(),
            rs_keys_in_pool(routing@, pool),
            state_bounded(routing@),
        ensures
            r.wf(),
            r.view_spec().exact == routing@.exact,
            r.view_spec().wildcards == routing@.wildcards,
            r.view_spec().default == routing@.default,
            r.view_spec().pool == pool.entries_view(),
    {
        let ghost rv = routing@;
        let (exact, wildcards, default) = directors_from_state(routing);
        let r = GhostDirector { exact, wildcards, default, pool };
        proof {
            assert forall|i: int| 0 <= i < r.exact@.len() implies (#[trigger] r.exact@[i]).1.wf()
                && routes_keys_in_pool(routes_view(r.exact@[i].1.routes@), r.pool) by {
                assert(director_list_view(r.exact@)[i] == rv.exact[i]);
                assert(routes_view(r.exact@[i].1.routes@) == rv.exact[i].1);
                assert(routes_bounded(rv.exact[i].1));
                assert forall|x: int|
                    0 <= x < r.exact@[i].1.routes@.len() implies (
                #[trigger] r.exact@[i].1.routes@[x]).backends@.len() < 0x1_0000_0000 by {
                    assert(routes_view(r.exact@[i].1.routes@)[x] == r.exact@[i].1.routes@[x]@);
                    assert(rv.exact[i].1[x].backends.len()
                        == r.exact@[i].1.routes@[x]@.backends.len());
                }
            }
            assert forall|i: int|
                0 <= i < r.wildcards@.len() implies (#[trigger] r.wildcards@[i]).1.wf()
                && routes_keys_in_pool(routes_view(r.wildcards@[i].1.routes@), r.pool) by {
                assert(director_list_view(r.wildcards@)[i] == rv.wildcards[i]);
                assert(routes_view(r.wildcards@[i].1.routes@) == rv.wildcards[i].1);
                assert(routes_bounded(rv.wildcards[i].1));
                assert forall|x: int|
                    0 <= x < r.wildcards@[i].1.routes@.len() implies (
                #[trigger] r.wildcards@[i].1.routes@[x]).backends@.len() < 0x1_0000_0000 by {
                    assert(routes_view(r.wildcards@[i].1.routes@)[x]
                        == r.wildcards@[i].1.routes@[x]@);
                    assert(rv.wildcards[i].1[x].backends.len()
                        == r.wildcards@[i].1.routes@[x]@.backends.len());
                }
            }
            match &r.default {
                Some(d) => {
                    assert(rv.default == Some(backends_view(d@)));
                    assert forall|j: int| 0 <= j < d@.len() implies r.pool.has_key(
                        (#[trigger] d@[j]).key@,
                    ) by {
                        assert(backends_view(d@)[j] == (d@[j].key@, d@[j].weight));
                        assert(rv.default.get_Some_0()[j].0 == d@[j].key@);
                    }
                },
                None => {},
            }
        }
        r
    }

    /// Reload from a new configuration: compile it against a scratch copy
    /// of the pool, drop pool entries the new state no longer references,
    /// and replace routing, directors and pool in one step. On any error
    /// nothing changes; afterwards the pool holds exactly the referenced
    /// keys.
    #[verifier::loop_isolation(false)]
    pub fn reload(&mut self, config: &crate::config::ConfigV2) -> (r: Result<(), String>)
        requires
            old(self).wf(),
            config_bounded(*config),
        ensures
            r is Ok <==> config_compilable(*config),
            r is Err ==> *final(self) == *old(self),
            r is Ok ==> {
                &&& final(self).wf()
                &&& final(self).view_spec().exact == build_view(*config).exact
                &&& final(self).view_spec().wildcards == build_view(*config).wildcards
                &&& final(self).view_spec().default is None
                &&& (forall|k: Seq<char>|
                    final(self).pool.has_key(k) <==> rs_references(build_view(*config), k))
                &&& (forall|k: Seq<char>, h: u64|
                    old(self).pool.has_entry(k, h) && rs_references(build_view(*config), k)
                        ==> final(self).pool.has_entry(k, h))
            },
    {
        let mut scratch = self.pool.duplicate();
        proof {
            assert(scratch.wf());
            assert(forall|k: Seq<char>, h: u64|
                old(self).pool.has_entry(k, h) ==> scratch.has_entry(k, h));
        }
        let rs = match build_routing_state(config, &mut scratch) {
            Ok(rs) => rs,
            Err(e) => {
                return Err(e);
            },
        };
        let keys = collect_referenced_backends(&rs);
        scratch.retain_only(&keys);
        let ghost rv = rs@;
        proof {
            assert forall|k: Seq<char>| scratch.has_key(k) <==> rs_references(rv, k) by {}
            lemma_build_bounded(*config);
        }
        let (exact, wildcards, default) = directors_from_state(rs);
        self.exact = exact;
        self.wildcards = wildcards;
        self.default = default;
        self.pool = scratch;
        proof {
            assert forall|i: int|
                0 <= i < self.exact@.len() implies (#[trigger] self.exact@[i]).1.wf()
                && routes_keys_in_pool(routes_view(self.exact@[i].1.routes@), self.pool) by {
                assert(director_list_view(self.exact@)[i] == rv.exact[i]);
                assert(routes_view(self.exact@[i].1.routes@) == rv.exact[i].1);
                assert(routes_bounded(rv.exact[i].1));
                assert forall|x: int|
                    0 <= x < self.exact@[i].1.routes@.len() implies (
                #[trigger] self.exact@[i].1.routes@[x]).backends@.len() < 0x1_0000_0000 by {
                    assert(routes_view(self.exact@[i].1.routes@)[x]
                        == self.exact@[i].1.routes@[x]@);
                    assert(rv.exact[i].1[x].backends.len()
                        == self.exact@[i].1.routes@[x]@.backends.len());
                }
                assert(routes_keys_in_pool(rv.exact[i].1, self.pool)) by {
                    assert forall|a: int, b: int|
                        0 <= a < rv.exact[i].1.len() && 0 <= b < (
                    #[trigger] rv.exact[i].1[a]).backends.len() implies self.pool.has_key(
                        (#[trigger] rv.exact[i].1[a].backends[b]).0,
                    ) by {
                        assert(routes_reference(rv.exact[i].1, rv.exact[i].1[a].backends[b].0));
                        assert(rs_references(rv, rv.exact[i].1[a].backends[b].0));
                    }
                }
            }
            assert forall|i: int|
                0 <= i < self.wildcards@.len() implies (#[trigger] self.wildcards@[i]).1.wf()
                && routes_keys_in_pool(routes_view(self.wildcards@[i].1.routes@), self.pool) by {
                assert(director_list_view(self.wildcards@)[i] == rv.wildcards[i]);
                assert(routes_view(self.wildcards@[i].1.routes@) == rv.wildcards[i].1);
                assert(routes_bounded(rv.wildcards[i].1));
                assert forall|x: int|
                    0 <= x < self.wildcards@[i].1.routes@.len() implies (
                #[trigger] self.wildcards@[i].1.routes@[x]).backends@.len() < 0x1_0000_0000 by {
                    assert(routes_view(self.wildcards@[i].1.routes@)[x]
                        == self.wildcards@[i].1.routes@[x]@);
                    assert(rv.wildcards[i].1[x].backends.len()
                        == self.wildcards@[i].1.routes@[x]@.backends.len());
                }
                assert(routes_keys_in_pool(rv.wildcards[i].1, self.pool)) by {
                    assert forall|a: int, b: int|
                        0 <= a < rv.wildcards[i].1.len() && 0 <= b < (
                    #[trigger] rv.wildcards[i].1[a]).backends.len() implies self.pool.has_key(
                        (#[trigger] rv.wildcards[i].1[a].backends[b]).0,
                    ) by {
                        assert(routes_reference(
                            rv.wildcards[i].1,
                            rv.wildcards[i].1[a].backends[b].0,
                        ));
                        assert(rs_references(rv, rv.wildcards[i].1[a].backends[b].0));
                    }
                }
            }
            match &self.default {
                Some(d) => {
                    assert(rv.default == Some(backends_view(d@)));
                    assert(rv.default is None);
                },
                None => {},
            }
        }
        Ok(())
    }

    /// The root director is always reported healthy.
    pub fn healthy(&self) -> (r: bool)
        ensures
            r == true,
    {
        true
    }

    /// One-line admin summary: vhost count, pool size and default presence.
    pub fn list(&self) -> (r: String)
        ensures
            r@ == crate::strutil::dec_str((self.exact@.len() + self.wildcards@.len()) as nat)
                + " vhosts, "@ + crate::strutil::dec_str(self.pool.entries@.len() as nat)
                + " backends, default: "@ + (if self.default is Some {
                "yes"@
            } else {
                "no"@
            }),
    {
        let total: u128 = (self.exact.len() as u128) + (self.wildcards.len() as u128);
        let mut out = crate::format::fmt_u128(total);
        out.append(" vhosts, ");
        out.append(crate::strutil::fmt_u64(self.pool.len() as u64).as_str());
        out.append(" backends, default: ");
        match &self.default {
            Some(_) => out.append("yes"),
            None => out.append("no"),
        }
        proof {
            assert(out@ =~= crate::strutil::dec_str(
                (self.exact@.len() + self.wildcards@.len()) as nat,
            ) + " vhosts, "@ + crate::strutil::dec_str(self.pool.entries@.len() as nat)
                + " backends, default: "@ + (if self.default is Some {
                "yes"@
            } else {
                "no"@
            }));
        }
        out
    }
}

} // verus!
