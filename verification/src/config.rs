//! Configuration model and validator.
//!
//! Two on-disk schema generations exist: the legacy per-vhost backend list
//! (`Config`, version 1) and the route-based form (`ConfigV2`, version 2).
//! Validation rejects malformed hostnames, backends, path matches and
//! redirect status codes; it transforms nothing.

use vstd::prelude::*;
use vstd::string::*;
use crate::strutil::{
    contains_char, has_double_slash, str_contains_char, str_has_double_slash, str_starts_with,
    fmt_u64,
};
use crate::rex::{regex_accepts, CompiledRegex};

verus! {

/// Backend endpoint definition.
#[derive(Debug, Clone)]
pub struct Backend {
    pub address: String,
    pub port: u16,
    pub weight: u32,
}

/// Weight assumed for a backend that does not declare one.
pub fn default_weight() -> (r: u32)
    ensures
        r == 100,
{
    100
}

/// Virtual host configuration (legacy schema).
#[derive(Debug, Clone)]
pub struct VHost {
    pub backends: Vec<Backend>,
}

/// Legacy configuration schema.
#[derive(Debug, Clone)]
pub struct Config {
    pub version: u32,
    pub vhosts: Vec<(String, VHost)>,
    pub default: Option<VHost>,
}

/// Path match type for routing rules.
#[derive(Debug, Clone, PartialEq, Eq, Structural)]
pub enum PathMatchType {
    Exact,
    PathPrefix,
    RegularExpression,
}

/// Path matching rule.
#[derive(Debug, Clone)]
pub struct PathMatch {
    pub match_type: PathMatchType,
    pub value: String,
}

/// Match type for header and query parameter rules.
#[derive(Debug, Clone, PartialEq, Eq, Structural)]
pub enum MatchType {
    Exact,
    RegularExpression,
}

/// Header matching rule; the name is compared case-insensitively.
#[derive(Debug, Clone)]
pub struct HeaderMatch {
    pub name: String,
    pub match_type: MatchType,
    pub value: String,
}

/// Query parameter matching rule.
#[derive(Debug, Clone)]
pub struct QueryParamMatch {
    pub name: String,
    pub match_type: MatchType,
    pub value: String,
}

/// One header mutation: a name and the value to set or add.
#[derive(Debug, Clone)]
pub struct HeaderAction {
    pub name: String,
    pub value: String,
}

/// Header modifier: remove, then set, then add.
#[derive(Debug, Clone)]
pub struct RequestHeaderFilter {
    pub set: Vec<HeaderAction>,
    pub add: Vec<HeaderAction>,
    pub remove: Vec<String>,
}

/// URL rewrite filter.
#[derive(Debug, Clone)]
pub struct URLRewriteFilter {
    pub hostname: Option<String>,
    pub path_type: Option<String>,
    pub replace_full_path: Option<String>,
    pub replace_prefix_match: Option<String>,
}

/// Request redirect filter.
#[derive(Debug, Clone)]
pub struct RequestRedirectFilter {
    pub scheme: Option<String>,
    pub hostname: Option<String>,
    pub path_type: Option<String>,
    pub replace_full_path: Option<String>,
    pub replace_prefix_match: Option<String>,
    pub port: Option<u16>,
    pub status_code: u16,
}

/// Optional bundle of filters carried by a route.
#[derive(Debug, Clone)]
pub struct RouteFilters {
    pub request_header_modifier: Option<RequestHeaderFilter>,
    pub response_header_modifier: Option<RequestHeaderFilter>,
    pub url_rewrite: Option<URLRewriteFilter>,
    pub request_redirect: Option<RequestRedirectFilter>,
}

/// Route with matchers, filters and backends.
#[derive(Debug, Clone)]
pub struct Route {
    pub path_match: Option<PathMatch>,
    pub method: Option<String>,
    pub headers: Vec<HeaderMatch>,
    pub query_params: Vec<QueryParamMatch>,
    pub filters: Option<RouteFilters>,
    pub backends: Vec<Backend>,
    pub priority: i32,
}

/// Virtual host configuration with route-based matching.
#[derive(Debug, Clone)]
pub struct VHostV2 {
    pub routes: Vec<Route>,
    pub default_backends: Vec<Backend>,
}

/// Route-based configuration schema.
#[derive(Debug, Clone)]
pub struct ConfigV2 {
    pub version: u32,
    pub vhosts: Vec<(String, VHostV2)>,
    pub default: Option<VHost>,
}

impl Config {
    /// Empty legacy configuration: the legitimate startup state before the
    /// control plane has written a file.
    pub fn empty() -> (r: Config)
        ensures
            r.version == 1,
            r.vhosts@.len() == 0,
            r.default is None,
    {
        Config { version: 1, vhosts: Vec::new(), default: None }
    }
}

impl ConfigV2 {
    /// Empty route-based configuration.
    pub fn empty() -> (r: ConfigV2)
        ensures
            r.version == 2,
            r.vhosts@.len() == 0,
            r.default is None,
    {
        ConfigV2 { version: 2, vhosts: Vec::new(), default: None }
    }
}

/// A hostname is non-empty, and a wildcard one starts with `*.`, has at
/// least one label after it, and has no further `*`.
pub open spec fn valid_hostname(h: Seq<char>) -> bool {
    &&& h.len() > 0
    &&& (contains_char(h, '*') ==> {
        &&& h.len() > 2
        &&& h[0] == '*'
        &&& h[1] == '.'
        &&& !contains_char(h.skip(2), '*')
    })
}

/// A backend has a non-empty address, a non-zero port and a non-zero weight.
pub open spec fn valid_backend(b: Backend) -> bool {
    &&& b.address@.len() > 0
    &&& b.port != 0
    &&& b.weight != 0
}

pub open spec fn valid_backends(bs: Seq<Backend>) -> bool {
    forall|i: int| 0 <= i < bs.len() ==> valid_backend(#[trigger] bs[i])
}

/// `Exact` and `PathPrefix` paths start with `/` and hold no `//`; a regex
/// is at most 1024 characters and must compile.
pub open spec fn valid_path_match(pm: PathMatch) -> bool {
    match pm.match_type {
        PathMatchType::Exact | PathMatchType::PathPrefix => {
            &&& pm.value@.len() > 0
            &&& pm.value@[0] == '/'
            &&& !has_double_slash(pm.value@)
        },
        PathMatchType::RegularExpression => {
            &&& pm.value@.len() <= 1024
            &&& regex_accepts(pm.value@)
        },
    }
}

/// A header or query-parameter regex rule is at most 1024 characters and
/// must compile; exact rules are always well-formed.
pub open spec fn valid_value_match(mt: MatchType, value: Seq<char>) -> bool {
    match mt {
        MatchType::Exact => true,
        MatchType::RegularExpression => value.len() <= 1024 && regex_accepts(value),
    }
}

/// Redirect status codes accepted by the Gateway API.
pub open spec fn valid_redirect_status(code: u16) -> bool {
    code == 301 || code == 302 || code == 303 || code == 307 || code == 308
}

pub open spec fn valid_filters(f: RouteFilters) -> bool {
    match f.request_redirect {
        Some(rr) => valid_redirect_status(rr.status_code),
        None => true,
    }
}

pub open spec fn valid_route(r: Route) -> bool {
    &&& valid_backends(r.backends@)
    &&& (match r.path_match {
        Some(pm) => valid_path_match(pm),
        None => true,
    })
    &&& (forall|i: int|
        0 <= i < r.headers@.len() ==> valid_value_match(
            (#[trigger] r.headers@[i]).match_type,
            r.headers@[i].value@,
        ))
    &&& (forall|i: int|
        0 <= i < r.query_params@.len() ==> valid_value_match(
            (#[trigger] r.query_params@[i]).match_type,
            r.query_params@[i].value@,
        ))
    &&& (match r.filters {
        Some(f) => valid_filters(f),
        None => true,
    })
}

pub open spec fn valid_vhost_v2(v: VHostV2) -> bool {
    &&& (forall|i: int| 0 <= i < v.routes@.len() ==> valid_route(#[trigger] v.routes@[i]))
    &&& valid_backends(v.default_backends@)
}

/// The whole legacy configuration is well-formed.
pub open spec fn valid_config(c: Config) -> bool {
    &&& c.version == 1
    &&& (forall|i: int|
        0 <= i < c.vhosts@.len() ==> valid_hostname((#[trigger] c.vhosts@[i]).0@) && valid_backends(
            c.vhosts@[i].1.backends@,
        ))
    &&& (match c.default {
        Some(d) => valid_backends(d.backends@),
        None => true,
    })
}

/// The whole route-based configuration is well-formed.
pub open spec fn valid_config_v2(c: ConfigV2) -> bool {
    &&& c.version == 2
    &&& (forall|i: int|
        0 <= i < c.vhosts@.len() ==> valid_hostname((#[trigger] c.vhosts@[i]).0@)
            && valid_vhost_v2(c.vhosts@[i].1))
    &&& (match c.default {
        Some(d) => valid_backends(d.backends@),
        None => true,
    })
}

/// Validate a hostname pattern.
pub fn validate_hostname(hostname: &str) -> (r: Result<(), String>)
    ensures
        r is Ok <==> valid_hostname(hostname@),
{
    if hostname.unicode_len() == 0 {
        return Err(String::from_str("hostname cannot be empty"));
    }
    if str_contains_char(hostname, '*') {
        proof {
            reveal_strlit("*.");
        }
        if !str_starts_with(hostname, "*.") {
            proof {
                if hostname@.len() >= 2 && hostname@[0] == '*' && hostname@[1] == '.' {
                    assert(hostname@.subrange(0, 2) =~= "*."@);
                }
            }
            let mut m = String::from_str("invalid wildcard hostname '");
            m.append(hostname);
            m.append("': wildcard must be at start (*.example.com)");
            return Err(m);
        }
        proof {
            assert(hostname@[0] == hostname@.subrange(0, 2)[0]);
            assert(hostname@[1] == hostname@.subrange(0, 2)[1]);
        }
        let n = hostname.unicode_len();
        if n == 2 {
            let mut m = String::from_str("invalid wildcard hostname '");
            m.append(hostname);
            m.append("': at least one label must follow the wildcard");
            return Err(m);
        }
        let tail = hostname.substring_char(2, n);
        assert(tail@ =~= hostname@.skip(2));
        if str_contains_char(tail, '*') {
            let mut m = String::from_str("invalid wildcard hostname '");
            m.append(hostname);
            m.append("': only single leading wildcard allowed");
            return Err(m);
        }
    }
    Ok(())
}

/// Validate a backend list; the context names the enclosing vhost or route
/// in the error message.
pub fn validate_backends(context: &str, backends: &Vec<Backend>) -> (r: Result<(), String>)
    ensures
        r is Ok <==> valid_backends(backends@),
{
    let n = backends.len();
    let mut i: usize = 0;
    while i < n
        invariant
            n == backends@.len(),
            i <= n,
            forall|j: int| 0 <= j < i ==> valid_backend(#[trigger] backends@[j]),
        decreases n - i,
    {
        let b = &backends[i];
        if b.address.as_str().is_empty() {
            let mut m = String::from_str("backend ");
            m.append(fmt_u64(i as u64).as_str());
            m.append(" in '");
            m.append(context);
            m.append("': address cannot be empty");
            return Err(m);
        }
        if b.port == 0 {
            let mut m = String::from_str("backend ");
            m.append(fmt_u64(i as u64).as_str());
            m.append(" in '");
            m.append(context);
            m.append("': port cannot be 0");
            return Err(m);
        }
        if b.weight == 0 {
            let mut m = String::from_str("backend ");
            m.append(fmt_u64(i as u64).as_str());
            m.append(" in '");
            m.append(context);
            m.append("': weight cannot be 0");
            return Err(m);
        }
        i += 1;
    }
    Ok(())
}

/// Validate a path match rule.
pub fn validate_path_match(path_match: &PathMatch, context: &str) -> (r: Result<(), String>)
    ensures
        r is Ok <==> valid_path_match(*path_match),
{
    match path_match.match_type {
        PathMatchType::Exact | PathMatchType::PathPrefix => {
            let v = path_match.value.as_str();
            let starts = if v.unicode_len() == 0 {
                false
            } else {
                v.get_char(0) == '/'
            };
            if !starts {
                let mut m = String::from_str(context);
                m.append(": path '");
                m.append(v);
                m.append("' must start with /");
                return Err(m);
            }
            if str_has_double_slash(v) {
                let mut m = String::from_str(context);
                m.append(": path '");
                m.append(v);
                m.append("' cannot contain consecutive slashes");
                return Err(m);
            }
            Ok(())
        },
        PathMatchType::RegularExpression => {
            let v = path_match.value.as_str();
            if v.unicode_len() > 1024 {
                let mut m = String::from_str(context);
                m.append(": regex pattern too long (");
                m.append(fmt_u64(v.unicode_len() as u64).as_str());
                m.append(" chars, max 1024)");
                return Err(m);
            }
            match CompiledRegex::compile(v) {
                Ok(_) => Ok(()),
                Err(e) => {
                    let mut m = String::from_str(context);
                    m.append(": invalid regex pattern '");
                    m.append(v);
                    m.append("': ");
                    m.append(e.as_str());
                    Err(m)
                },
            }
        },
    }
}

/// Validate one header or query-parameter match rule.
fn validate_value_match(mt: &MatchType, value: &str, context: &str) -> (r: Result<(), String>)
    ensures
        r is Ok <==> valid_value_match(*mt, value@),
{
    match mt {
        MatchType::Exact => Ok(()),
        MatchType::RegularExpression => {
            if value.unicode_len() > 1024 {
                let mut m = String::from_str(context);
                m.append(": regex pattern too long (");
                m.append(fmt_u64(value.unicode_len() as u64).as_str());
                m.append(" chars, max 1024)");
                return Err(m);
            }
            match CompiledRegex::compile(value) {
                Ok(_) => Ok(()),
                Err(e) => {
                    let mut m = String::from_str(context);
                    m.append(": invalid regex pattern '");
                    m.append(value);
                    m.append("': ");
                    m.append(e.as_str());
                    Err(m)
                },
            }
        },
    }
}

/// Validate a legacy configuration.
pub fn validate(config: &Config) -> (r: Result<(), String>)
    ensures
        r is Ok <==> valid_config(*config),
{
    if config.version != 1 {
        return Err(String::from_str("unsupported config version (expected 1)"));
    }
    let n = config.vhosts.len();
    let mut i: usize = 0;
    while i < n
        invariant
            n == config.vhosts@.len(),
            i <= n,
            forall|j: int|
                0 <= j < i ==> valid_hostname((#[trigger] config.vhosts@[j]).0@) && valid_backends(
                    config.vhosts@[j].1.backends@,
                ),
        decreases n - i,
    {
        let entry = &config.vhosts[i];
        if let Err(e) = validate_hostname(entry.0.as_str()) {
            return Err(e);
        }
        if let Err(e) = validate_backends(entry.0.as_str(), &entry.1.backends) {
            return Err(e);
        }
        i += 1;
    }
    if let Some(default) = &config.default {
        if let Err(e) = validate_backends("default", &default.backends) {
            return Err(e);
        }
    }
    Ok(())
}

/// Validate one route of a vhost.
fn validate_route(route: &Route, context: &str) -> (r: Result<(), String>)
    ensures
        r is Ok <==> valid_route(*route),
{
    if let Err(e) = validate_backends(context, &route.backends) {
        return Err(e);
    }
    if let Some(pm) = &route.path_match {
        if let Err(e) = validate_path_match(pm, context) {
            return Err(e);
        }
    }
    let hn = route.headers.len();
    let mut i: usize = 0;
    while i < hn
        invariant
            hn == route.headers@.len(),
            i <= hn,
            forall|j: int|
                0 <= j < i ==> valid_value_match(
                    (#[trigger] route.headers@[j]).match_type,
                    route.headers@[j].value@,
                ),
        decreases hn - i,
    {
        let h = &route.headers[i];
        if let Err(e) = validate_value_match(&h.match_type, h.value.as_str(), context) {
            return Err(e);
        }
        i += 1;
    }
    let qn = route.query_params.len();
    let mut i: usize = 0;
    while i < qn
        invariant
            qn == route.query_params@.len(),
            i <= qn,
            forall|j: int|
                0 <= j < i ==> valid_value_match(
                    (#[trigger] route.query_params@[j]).match_type,
                    route.query_params@[j].value@,
                ),
        decreases qn - i,
    {
        let q = &route.query_params[i];
        if let Err(e) = validate_value_match(&q.match_type, q.value.as_str(), context) {
            return Err(e);
        }
        i += 1;
    }
    if let Some(f) = &route.filters {
        if let Some(rr) = &f.request_redirect {
            let code = rr.status_code;
            if !(code == 301 || code == 302 || code == 303 || code == 307 || code == 308) {
                let mut m = String::from_str(context);
                m.append(": invalid redirect status_code");
                return Err(m);
            }
        }
    }
    Ok(())
}

/// Validate a route-based configuration.
#[verifier::loop_isolation(false)]
pub fn validate_v2(config: &ConfigV2) -> (r: Result<(), String>)
    ensures
        r is Ok <==> valid_config_v2(*config),
{
    if config.version != 2 {
        return Err(String::from_str("unsupported config version (expected 2)"));
    }
    let n = config.vhosts.len();
    let mut i: usize = 0;
    while i < n
        invariant
            n == config.vhosts@.len(),
            i <= n,
            forall|j: int|
                0 <= j < i ==> valid_hostname((#[trigger] config.vhosts@[j]).0@) && valid_vhost_v2(
                    config.vhosts@[j].1,
                ),
        decreases n - i,
    {
        let entry = &config.vhosts[i];
        let hostname = entry.0.as_str();
        if let Err(e) = validate_hostname(hostname) {
            return Err(e);
        }
        let rn = entry.1.routes.len();
        let mut k: usize = 0;
        while k < rn
            invariant
                rn == entry.1.routes@.len(),
                k <= rn,
                forall|j: int| 0 <= j < k ==> valid_route(#[trigger] entry.1.routes@[j]),
            decreases rn - k,
        {
            let mut route_ctx = String::from_str(hostname);
            route_ctx.append(" route ");
            route_ctx.append(fmt_u64(k as u64).as_str());
            if let Err(e) = validate_route(&entry.1.routes[k], route_ctx.as_str()) {
                return Err(e);
            }
            k += 1;
        }
        if entry.1.default_backends.len() > 0 {
            let mut ctx = String::from_str(hostname);
            ctx.append(" default_backends");
            if let Err(e) = validate_backends(ctx.as_str(), &entry.1.default_backends) {
                proof {
                    assert(config.vhosts@[i as int].1 == entry.1);
                    assert(!valid_backends(entry.1.default_backends@));
                    assert(!valid_vhost_v2(config.vhosts@[i as int].1));
                    assert(!valid_config_v2(*config));
                }
                return Err(e);
            }
        }
        i += 1;
    }
    if let Some(default) = &config.default {
        if let Err(e) = validate_backends("default", &default.backends) {
            return Err(e);
        }
    }
    Ok(())
}

} // verus!

// Derived `Clone` impls are opaque to the verifier, so the crate keeps
// hand-written copy functions whose results are provably equal to their
// sources, by view.
verus! {

pub open spec fn opt_str_view(o: Option<String>) -> Option<Seq<char>> {
    match o {
        Some(s) => Some(s@),
        None => None,
    }
}

pub open spec fn actions_view(v: Seq<HeaderAction>) -> Seq<(Seq<char>, Seq<char>)> {
    v.map_values(|a: HeaderAction| (a.name@, a.value@))
}

pub open spec fn strings_view(v: Seq<String>) -> Seq<Seq<char>> {
    v.map_values(|s: String| s@)
}

/// Header modifier, by view.
#[verifier::ext_equal]
pub struct RequestHeaderFilterView {
    pub set: Seq<(Seq<char>, Seq<char>)>,
    pub add: Seq<(Seq<char>, Seq<char>)>,
    pub remove: Seq<Seq<char>>,
}

impl View for RequestHeaderFilter {
    type V = RequestHeaderFilterView;

    open spec fn view(&self) -> RequestHeaderFilterView {
        RequestHeaderFilterView {
            set: actions_view(self.set@),
            add: actions_view(self.add@),
            remove: strings_view(self.remove@),
        }
    }
}

/// URL rewrite filter, by view.
#[verifier::ext_equal]
pub struct URLRewriteFilterView {
    pub hostname: Option<Seq<char>>,
    pub path_type: Option<Seq<char>>,
    pub replace_full_path: Option<Seq<char>>,
    pub replace_prefix_match: Option<Seq<char>>,
}

impl View for URLRewriteFilter {
    type V = URLRewriteFilterView;

    open spec fn view(&self) -> URLRewriteFilterView {
        URLRewriteFilterView {
            hostname: opt_str_view(self.hostname),
            path_type: opt_str_view(self.path_type),
            replace_full_path: opt_str_view(self.replace_full_path),
            replace_prefix_match: opt_str_view(self.replace_prefix_match),
        }
    }
}

/// Redirect filter, by view.
#[verifier::ext_equal]
pub struct RequestRedirectFilterView {
    pub scheme: Option<Seq<char>>,
    pub hostname: Option<Seq<char>>,
    pub path_type: Option<Seq<char>>,
    pub replace_full_path: Option<Seq<char>>,
    pub replace_prefix_match: Option<Seq<char>>,
    pub port: Option<u16>,
    pub status_code: u16,
}

impl View for RequestRedirectFilter {
    type V = RequestRedirectFilterView;

    open spec fn view(&self) -> RequestRedirectFilterView {
        RequestRedirectFilterView {
            scheme: opt_str_view(self.scheme),
            hostname: opt_str_view(self.hostname),
            path_type: opt_str_view(self.path_type),
            replace_full_path: opt_str_view(self.replace_full_path),
            replace_prefix_match: opt_str_view(self.replace_prefix_match),
            port: self.port,
            status_code: self.status_code,
        }
    }
}

/// Filter bundle, by view.
#[verifier::ext_equal]
pub struct RouteFiltersView {
    pub request_header_modifier: Option<RequestHeaderFilterView>,
    pub response_header_modifier: Option<RequestHeaderFilterView>,
    pub url_rewrite: Option<URLRewriteFilterView>,
    pub request_redirect: Option<RequestRedirectFilterView>,
}

impl View for RouteFilters {
    type V = RouteFiltersView;

    open spec fn view(&self) -> RouteFiltersView {
        RouteFiltersView {
            request_header_modifier: match self.request_header_modifier {
                Some(f) => Some(f@),
                None => None,
            },
            response_header_modifier: match self.response_header_modifier {
                Some(f) => Some(f@),
                None => None,
            },
            url_rewrite: match self.url_rewrite {
                Some(f) => Some(f@),
                None => None,
            },
            request_redirect: match self.request_redirect {
                Some(f) => Some(f@),
                None => None,
            },
        }
    }
}

pub open spec fn opt_filters_view(o: Option<RouteFilters>) -> Option<RouteFiltersView> {
    match o {
        Some(f) => Some(f@),
        None => None,
    }
}

/// Copy an optional string; the copy equals the original.
pub fn clone_opt_string(o: &Option<String>) -> (r: Option<String>)
    ensures
        r == *o,
{
    match o {
        Some(s) => Some(s.clone()),
        None => None,
    }
}

/// Copy a header action list; the copy equals the original.
pub fn clone_header_actions(v: &Vec<HeaderAction>) -> (r: Vec<HeaderAction>)
    ensures
        r@ == v@,
{
    let n = v.len();
    let mut out: Vec<HeaderAction> = Vec::new();
    let mut i: usize = 0;
    while i < n
        invariant
            n == v@.len(),
            i <= n,
            out@ =~= v@.subrange(0, i as int),
        decreases n - i,
    {
        out.push(HeaderAction { name: v[i].name.clone(), value: v[i].value.clone() });
        i += 1;
    }
    proof {
        assert(v@.subrange(0, n as int) =~= v@);
    }
    out
}

/// Copy a string list; the copy equals the original.
pub fn clone_strings(v: &Vec<String>) -> (r: Vec<String>)
    ensures
        r@ == v@,
{
    let n = v.len();
    let mut out: Vec<String> = Vec::new();
    let mut i: usize = 0;
    while i < n
        invariant
            n == v@.len(),
            i <= n,
            out@ =~= v@.subrange(0, i as int),
        decreases n - i,
    {
        out.push(v[i].clone());
        i += 1;
    }
    proof {
        assert(v@.subrange(0, n as int) =~= v@);
    }
    out
}

/// Copy a header modifier; the copy equals the original by view.
pub fn clone_header_filter(f: &RequestHeaderFilter) -> (r: RequestHeaderFilter)
    ensures
        r@ == f@,
{
    RequestHeaderFilter {
        set: clone_header_actions(&f.set),
        add: clone_header_actions(&f.add),
        remove: clone_strings(&f.remove),
    }
}

/// Copy a URL rewrite filter; the copy equals the original.
pub fn clone_url_rewrite(f: &URLRewriteFilter) -> (r: URLRewriteFilter)
    ensures
        r == *f,
        r@ == f@,
{
    URLRewriteFilter {
        hostname: clone_opt_string(&f.hostname),
        path_type: clone_opt_string(&f.path_type),
        replace_full_path: clone_opt_string(&f.replace_full_path),
        replace_prefix_match: clone_opt_string(&f.replace_prefix_match),
    }
}

/// Copy a redirect filter; the copy equals the original.
pub fn clone_request_redirect(f: &RequestRedirectFilter) -> (r: RequestRedirectFilter)
    ensures
        r == *f,
        r@ == f@,
{
    RequestRedirectFilter {
        scheme: clone_opt_string(&f.scheme),
        hostname: clone_opt_string(&f.hostname),
        path_type: clone_opt_string(&f.path_type),
        replace_full_path: clone_opt_string(&f.replace_full_path),
        replace_prefix_match: clone_opt_string(&f.replace_prefix_match),
        port: f.port,
        status_code: f.status_code,
    }
}

/// Copy a filter bundle; the copy equals the original by view.
pub fn clone_filters(f: &RouteFilters) -> (r: RouteFilters)
    ensures
        r@ == f@,
{
    RouteFilters {
        request_header_modifier: match &f.request_header_modifier {
            Some(m) => Some(clone_header_filter(m)),
            None => None,
        },
        response_header_modifier: match &f.response_header_modifier {
            Some(m) => Some(clone_header_filter(m)),
            None => None,
        },
        url_rewrite: match &f.url_rewrite {
            Some(m) => Some(clone_url_rewrite(m)),
            None => None,
        },
        request_redirect: match &f.request_redirect {
            Some(m) => Some(clone_request_redirect(m)),
            None => None,
        },
    }
}

} // verus!
