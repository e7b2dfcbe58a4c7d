//! Configuration loading: JSON parsing through `serde_json` behind a
//! trusted boundary, a verified walk of the parsed document into the
//! configuration model, and validation on top.

use vstd::prelude::*;
use vstd::string::*;
use crate::config::{
    default_weight, validate, validate_v2, valid_config, valid_config_v2, Backend, Config,
    ConfigV2, HeaderAction, HeaderMatch, MatchType, PathMatch, PathMatchType, QueryParamMatch,
    RequestHeaderFilter, RequestRedirectFilter, Route, RouteFilters, URLRewriteFilter, VHost,
    VHostV2,
};
use crate::director::config_bounded;
use crate::strutil::str_eq;

verus! {

#[verifier::external_type_specification]
#[verifier::external_body]
pub struct ExValue(serde_json::Value);

/// Whether `serde_json::from_str` accepts the text as a JSON document.
pub uninterp spec fn json_wf(text: Seq<char>) -> bool;

/// Relies on `serde_json::from_str` (serde_json 1.0): acceptance is a
/// function of the text alone; the error is rendered to a message.
#[verifier::external_body]
pub fn json_parse(text: &str) -> (r: Result<serde_json::Value, String>)
    ensures
        r is Ok <==> json_wf(text@),
{
    match serde_json::from_str(text) {
        Ok(v) => Ok(v),
        Err(e) => Err(format!("{}", e)),
    }
}

/// Relies on `serde_json::Value::get`: member lookup on an object.
#[verifier::external_body]
fn json_get<'a>(v: &'a serde_json::Value, key: &str) -> (r: Option<&'a serde_json::Value>)
{
    v.get(key)
}

/// Relies on `serde_json::Value::as_str`.
#[verifier::external_body]
fn json_as_str<'a>(v: &'a serde_json::Value) -> (r: Option<&'a str>)
{
    v.as_str()
}

/// Relies on `serde_json::Value::as_u64`.
#[verifier::external_body]
fn json_as_u64(v: &serde_json::Value) -> (r: Option<u64>)
{
    v.as_u64()
}

/// Relies on `serde_json::Value::as_i64`.
#[verifier::external_body]
fn json_as_i64(v: &serde_json::Value) -> (r: Option<i64>)
{
    v.as_i64()
}

/// Relies on `serde_json::Value::as_array`.
#[verifier::external_body]
fn json_as_array<'a>(v: &'a serde_json::Value) -> (r: Option<&'a Vec<serde_json::Value>>)
{
    v.as_array()
}

/// Relies on `serde_json::Value::as_object` and `Map::iter`: the object's
/// members as key/value pairs, converted one for one.
#[verifier::external_body]
fn json_object_entries(v: &serde_json::Value) -> (r: Option<Vec<(String, serde_json::Value)>>)
{
    v.as_object().map(|m| m.iter().map(|(k, val)| (k.clone(), val.clone())).collect())
}

/// An optional member string, `Err` when present but not a string.
fn opt_member_string(v: &serde_json::Value, key: &str) -> (r: Result<Option<String>, String>)
{
    match json_get(v, key) {
        Some(m) => match json_as_str(m) {
            Some(s) => Ok(Some(String::from_str(s))),
            None => {
                let mut e = String::from_str("field '");
                e.append(key);
                e.append("' must be a string");
                Err(e)
            },
        },
        None => Ok(None),
    }
}

/// One backend object: address, port, optional weight (default 100).
fn parse_backend(v: &serde_json::Value) -> (r: Result<Backend, String>)
{
    let address = match opt_member_string(v, "address") {
        Ok(Some(s)) => s,
        Ok(None) => {
            return Err(String::from_str("backend is missing 'address'"));
        },
        Err(e) => {
            return Err(e);
        },
    };
    let port: u16 = match json_get(v, "port") {
        Some(p) => match json_as_u64(p) {
            Some(n) => {
                if n > 65535 {
                    return Err(String::from_str("backend 'port' out of range"));
                }
                n as u16
            },
            None => {
                return Err(String::from_str("backend 'port' must be a number"));
            },
        },
        None => {
            return Err(String::from_str("backend is missing 'port'"));
        },
    };
    let weight: u32 = match json_get(v, "weight") {
        Some(w) => match json_as_u64(w) {
            Some(n) => {
                if n > 0xffff_ffff {
                    return Err(String::from_str("backend 'weight' out of range"));
                }
                n as u32
            },
            None => {
                return Err(String::from_str("backend 'weight' must be a number"));
            },
        },
        None => default_weight(),
    };
    Ok(Backend { address, port, weight })
}

/// A backend array; bounded so that weight sums fit.
fn parse_backends(v: &serde_json::Value) -> (r: Result<Vec<Backend>, String>)
    ensures
        r matches Ok(bs) ==> bs@.len() < 0x1_0000_0000,
{
    let arr = match json_as_array(v) {
        Some(a) => a,
        None => {
            return Err(String::from_str("'backends' must be an array"));
        },
    };
    let mut out: Vec<Backend> = Vec::new();
    let n = arr.len();
    let mut i: usize = 0;
    while i < n
        invariant
            i <= n,
            out@.len() == i,
            n == arr@.len(),
        decreases n - i,
    {
        match parse_backend(&arr[i]) {
            Ok(b) => out.push(b),
            Err(e) => {
                return Err(e);
            },
        }
        i += 1;
    }
    if (out.len() as u64) >= 0x1_0000_0000 {
        return Err(String::from_str("too many backends"));
    }
    Ok(out)
}

/// One header action object: name and value.
fn parse_header_action(v: &serde_json::Value) -> (r: Result<HeaderAction, String>)
{
    let name = match opt_member_string(v, "name") {
        Ok(Some(s)) => s,
        Ok(None) => {
            return Err(String::from_str("header action is missing 'name'"));
        },
        Err(e) => {
            return Err(e);
        },
    };
    let value = match opt_member_string(v, "value") {
        Ok(Some(s)) => s,
        Ok(None) => {
            return Err(String::from_str("header action is missing 'value'"));
        },
        Err(e) => {
            return Err(e);
        },
    };
    Ok(HeaderAction { name, value })
}

/// An optional member array of header actions.
fn parse_actions(v: &serde_json::Value, key: &str) -> (r: Result<Vec<HeaderAction>, String>)
{
    let mut out: Vec<HeaderAction> = Vec::new();
    if let Some(m) = json_get(v, key) {
        let arr = match json_as_array(m) {
            Some(a) => a,
            None => {
                let mut e = String::from_str("field '");
                e.append(key);
                e.append("' must be an array");
                return Err(e);
            },
        };
        let n = arr.len();
        let mut i: usize = 0;
        while i < n
            invariant
                i <= n,
                n == arr@.len(),
            decreases n - i,
        {
            match parse_header_action(&arr[i]) {
                Ok(a) => out.push(a),
                Err(e) => {
                    return Err(e);
                },
            }
            i += 1;
        }
    }
    Ok(out)
}

/// The `remove` list of a header modifier.
fn parse_remove(v: &serde_json::Value) -> (r: Result<Vec<String>, String>)
{
    let mut out: Vec<String> = Vec::new();
    if let Some(m) = json_get(v, "remove") {
        let arr = match json_as_array(m) {
            Some(a) => a,
            None => {
                return Err(String::from_str("field 'remove' must be an array"));
            },
        };
        let n = arr.len();
        let mut i: usize = 0;
        while i < n
            invariant
                i <= n,
                n == arr@.len(),
            decreases n - i,
        {
            match json_as_str(&arr[i]) {
                Some(s) => out.push(String::from_str(s)),
                None => {
                    return Err(String::from_str("'remove' entries must be strings"));
                },
            }
            i += 1;
        }
    }
    Ok(out)
}

/// A request or response header modifier object.
fn parse_header_filter(v: &serde_json::Value) -> (r: Result<RequestHeaderFilter, String>)
{
    let set = match parse_actions(v, "set") {
        Ok(a) => a,
        Err(e) => {
            return Err(e);
        },
    };
    let add = match parse_actions(v, "add") {
        Ok(a) => a,
        Err(e) => {
            return Err(e);
        },
    };
    let remove = match parse_remove(v) {
        Ok(a) => a,
        Err(e) => {
            return Err(e);
        },
    };
    Ok(RequestHeaderFilter { set, add, remove })
}

/// A URL rewrite filter object.
fn parse_url_rewrite(v: &serde_json::Value) -> (r: Result<URLRewriteFilter, String>)
{
    let hostname = match opt_member_string(v, "hostname") {
        Ok(o) => o,
        Err(e) => {
            return Err(e);
        },
    };
    let path_type = match opt_member_string(v, "path_type") {
        Ok(o) => o,
        Err(e) => {
            return Err(e);
        },
    };
    let replace_full_path = match opt_member_string(v, "replace_full_path") {
        Ok(o) => o,
        Err(e) => {
            return Err(e);
        },
    };
    let replace_prefix_match = match opt_member_string(v, "replace_prefix_match") {
        Ok(o) => o,
        Err(e) => {
            return Err(e);
        },
    };
    Ok(URLRewriteFilter { hostname, path_type, replace_full_path, replace_prefix_match })
}

/// A request redirect filter object; the status code is required.
fn parse_request_redirect(v: &serde_json::Value) -> (r: Result<RequestRedirectFilter, String>)
{
    let scheme = match opt_member_string(v, "scheme") {
        Ok(o) => o,
        Err(e) => {
            return Err(e);
        },
    };
    let hostname = match opt_member_string(v, "hostname") {
        Ok(o) => o,
        Err(e) => {
            return Err(e);
        },
    };
    let path_type = match opt_member_string(v, "path_type") {
        Ok(o) => o,
        Err(e) => {
            return Err(e);
        },
    };
    let replace_full_path = match opt_member_string(v, "replace_full_path") {
        Ok(o) => o,
        Err(e) => {
            return Err(e);
        },
    };
    let replace_prefix_match = match opt_member_string(v, "replace_prefix_match") {
        Ok(o) => o,
        Err(e) => {
            return Err(e);
        },
    };
    let port: Option<u16> = match json_get(v, "port") {
        Some(p) => match json_as_u64(p) {
            Some(n) => {
                if n > 65535 {
                    return Err(String::from_str("redirect 'port' out of range"));
                }
                Some(n as u16)
            },
            None => {
                return Err(String::from_str("redirect 'port' must be a number"));
            },
        },
        None => None,
    };
    let status_code: u16 = match json_get(v, "status_code") {
        Some(c) => match json_as_u64(c) {
            Some(n) => {
                if n > 65535 {
                    return Err(String::from_str("redirect 'status_code' out of range"));
                }
                n as u16
            },
            None => {
                return Err(String::from_str("redirect 'status_code' must be a number"));
            },
        },
        None => {
            return Err(String::from_str("redirect is missing 'status_code'"));
        },
    };
    Ok(
        RequestRedirectFilter {
            scheme,
            hostname,
            path_type,
            replace_full_path,
            replace_prefix_match,
            port,
            status_code,
        },
    )
}

/// The optional filter bundle of a route.
fn parse_filters(v: &serde_json::Value) -> (r: Result<RouteFilters, String>)
{
    let request_header_modifier = match json_get(v, "request_header_modifier") {
        Some(m) => match parse_header_filter(m) {
            Ok(f) => Some(f),
            Err(e) => {
                return Err(e);
            },
        },
        None => None,
    };
    let response_header_modifier = match json_get(v, "response_header_modifier") {
        Some(m) => match parse_header_filter(m) {
            Ok(f) => Some(f),
            Err(e) => {
                return Err(e);
            },
        },
        None => None,
    };
    let url_rewrite = match json_get(v, "url_rewrite") {
        Some(m) => match parse_url_rewrite(m) {
            Ok(f) => Some(f),
            Err(e) => {
                return Err(e);
            },
        },
        None => None,
    };
    let request_redirect = match json_get(v, "request_redirect") {
        Some(m) => match parse_request_redirect(m) {
            Ok(f) => Some(f),
            Err(e) => {
                return Err(e);
            },
        },
        None => None,
    };
    Ok(
        RouteFilters {
            request_header_modifier,
            response_header_modifier,
            url_rewrite,
            request_redirect,
        },
    )
}

/// A path match object: `type` and `value`.
fn parse_path_match(v: &serde_json::Value) -> (r: Result<PathMatch, String>)
{
    let t = match opt_member_string(v, "type") {
        Ok(Some(s)) => s,
        Ok(None) => {
            return Err(String::from_str("path_match is missing 'type'"));
        },
        Err(e) => {
            return Err(e);
        },
    };
    let value = match opt_member_string(v, "value") {
        Ok(Some(s)) => s,
        Ok(None) => {
            return Err(String::from_str("path_match is missing 'value'"));
        },
        Err(e) => {
            return Err(e);
        },
    };
    let match_type = if str_eq(t.as_str(), "Exact") {
        PathMatchType::Exact
    } else if str_eq(t.as_str(), "PathPrefix") {
        PathMatchType::PathPrefix
    } else if str_eq(t.as_str(), "RegularExpression") {
        PathMatchType::RegularExpression
    } else {
        return Err(String::from_str("unknown path match type"));
    };
    Ok(PathMatch { match_type, value })
}

/// The shared shape of header and query-parameter matches.
fn parse_match_parts(v: &serde_json::Value) -> (r: Result<(String, MatchType, String), String>)
{
    let name = match opt_member_string(v, "name") {
        Ok(Some(s)) => s,
        Ok(None) => {
            return Err(String::from_str("match is missing 'name'"));
        },
        Err(e) => {
            return Err(e);
        },
    };
    let t = match opt_member_string(v, "match_type") {
        Ok(Some(s)) => s,
        Ok(None) => {
            return Err(String::from_str("match is missing 'match_type'"));
        },
        Err(e) => {
            return Err(e);
        },
    };
    let value = match opt_member_string(v, "value") {
        Ok(Some(s)) => s,
        Ok(None) => {
            return Err(String::from_str("match is missing 'value'"));
        },
        Err(e) => {
            return Err(e);
        },
    };
    let match_type = if str_eq(t.as_str(), "Exact") {
        MatchType::Exact
    } else if str_eq(t.as_str(), "RegularExpression") {
        MatchType::RegularExpression
    } else {
        return Err(String::from_str("unknown match type"));
    };
    Ok((name, match_type, value))
}

/// An optional member array of header matches.
fn parse_header_matches(v: &serde_json::Value) -> (r: Result<Vec<HeaderMatch>, String>)
{
    let mut out: Vec<HeaderMatch> = Vec::new();
    if let Some(m) = json_get(v, "headers") {
        let arr = match json_as_array(m) {
            Some(a) => a,
            None => {
                return Err(String::from_str("'headers' must be an array"));
            },
        };
        let n = arr.len();
        let mut i: usize = 0;
        while i < n
            invariant
                i <= n,
                n == arr@.len(),
            decreases n - i,
        {
            match parse_match_parts(&arr[i]) {
                Ok((name, match_type, value)) => out.push(
                    HeaderMatch { name, match_type, value },
                ),
                Err(e) => {
                    return Err(e);
                },
            }
            i += 1;
        }
    }
    Ok(out)
}

/// An optional member array of query parameter matches.
fn parse_query_matches(v: &serde_json::Value) -> (r: Result<Vec<QueryParamMatch>, String>)
{
    let mut out: Vec<QueryParamMatch> = Vec::new();
    if let Some(m) = json_get(v, "query_params") {
        let arr = match json_as_array(m) {
            Some(a) => a,
            None => {
                return Err(String::from_str("'query_params' must be an array"));
            },
        };
        let n = arr.len();
        let mut i: usize = 0;
        while i < n
            invariant
                i <= n,
                n == arr@.len(),
            decreases n - i,
        {
            match parse_match_parts(&arr[i]) {
                Ok((name, match_type, value)) => out.push(
                    QueryParamMatch { name, match_type, value },
                ),
                Err(e) => {
                    return Err(e);
                },
            }
            i += 1;
        }
    }
    Ok(out)
}

/// One route object.
fn parse_route(v: &serde_json::Value) -> (r: Result<Route, String>)
    ensures
        r matches Ok(route) ==> route.backends@.len() < 0x1_0000_0000,
{
    let path_match = match json_get(v, "path_match") {
        Some(m) => match parse_path_match(m) {
            Ok(pm) => Some(pm),
            Err(e) => {
                return Err(e);
            },
        },
        None => None,
    };
    let method = match opt_member_string(v, "method") {
        Ok(o) => o,
        Err(e) => {
            return Err(e);
        },
    };
    let headers = match parse_header_matches(v) {
        Ok(h) => h,
        Err(e) => {
            return Err(e);
        },
    };
    let query_params = match parse_query_matches(v) {
        Ok(q) => q,
        Err(e) => {
            return Err(e);
        },
    };
    let filters = match json_get(v, "filters") {
        Some(m) => match parse_filters(m) {
            Ok(f) => Some(f),
            Err(e) => {
                return Err(e);
            },
        },
        None => None,
    };
    let backends = match json_get(v, "backends") {
        Some(m) => match parse_backends(m) {
            Ok(b) => b,
            Err(e) => {
                return Err(e);
            },
        },
        None => Vec::new(),
    };
    let priority: i32 = match json_get(v, "priority") {
        Some(p) => match json_as_i64(p) {
            Some(n) => {
                if n > 0x7fff_ffff || n < -0x8000_0000 {
                    return Err(String::from_str("route 'priority' out of range"));
                }
                n as i32
            },
            None => {
                return Err(String::from_str("route 'priority' must be a number"));
            },
        },
        None => 0,
    };
    Ok(Route { path_match, method, headers, query_params, filters, backends, priority })
}

/// One vhost object of the route-based schema.
fn parse_vhost_v2(v: &serde_json::Value) -> (r: Result<VHostV2, String>)
    ensures
        r matches Ok(vh) ==> (forall|k: int|
            0 <= k < vh.routes@.len() ==> (#[trigger] vh.routes@[k]).backends@.len()
                < 0x1_0000_0000) && vh.default_backends@.len() < 0x1_0000_0000,
{
    let mut routes: Vec<Route> = Vec::new();
    if let Some(m) = json_get(v, "routes") {
        let arr = match json_as_array(m) {
            Some(a) => a,
            None => {
                return Err(String::from_str("'routes' must be an array"));
            },
        };
        let n = arr.len();
        let mut i: usize = 0;
        while i < n
            invariant
                i <= n,
                n == arr@.len(),
                forall|k: int|
                    0 <= k < routes@.len() ==> (#[trigger] routes@[k]).backends@.len()
                        < 0x1_0000_0000,
            decreases n - i,
        {
            match parse_route(&arr[i]) {
                Ok(route) => routes.push(route),
                Err(e) => {
                    return Err(e);
                },
            }
            i += 1;
        }
    }
    let default_backends = match json_get(v, "default_backends") {
        Some(m) => match parse_backends(m) {
            Ok(b) => b,
            Err(e) => {
                return Err(e);
            },
        },
        None => Vec::new(),
    };
    Ok(VHostV2 { routes, default_backends })
}

/// One vhost object of the legacy schema.
fn parse_vhost(v: &serde_json::Value) -> (r: Result<VHost, String>)
{
    let backends = match json_get(v, "backends") {
        Some(m) => match parse_backends(m) {
            Ok(b) => b,
            Err(e) => {
                return Err(e);
            },
        },
        None => {
            return Err(String::from_str("vhost is missing 'backends'"));
        },
    };
    Ok(VHost { backends })
}

/// The shared version member.
fn parse_version(v: &serde_json::Value) -> (r: Result<u32, String>)
{
    match json_get(v, "version") {
        Some(m) => match json_as_u64(m) {
            Some(n) => {
                if n > 0xffff_ffff {
                    return Err(String::from_str("'version' out of range"));
                }
                Ok(n as u32)
            },
            None => Err(String::from_str("'version' must be a number")),
        },
        None => Err(String::from_str("config is missing 'version'")),
    }
}

/// Build a route-based configuration from a parsed JSON document.
#[verifier::loop_isolation(false)]
pub fn parse_config_v2(doc: &serde_json::Value) -> (r: Result<ConfigV2, String>)
    ensures
        r matches Ok(c) ==> config_bounded(c),
{
    let version = match parse_version(doc) {
        Ok(n) => n,
        Err(e) => {
            return Err(e);
        },
    };
    let mut vhosts: Vec<(String, VHostV2)> = Vec::new();
    if let Some(m) = json_get(doc, "vhosts") {
        let entries = match json_object_entries(m) {
            Some(es) => es,
            None => {
                return Err(String::from_str("'vhosts' must be an object"));
            },
        };
        let n = entries.len();
        let mut i: usize = 0;
        while i < n
            invariant
                i <= n,
                n == entries@.len(),
                forall|a: int|
                    0 <= a < vhosts@.len() ==> ((forall|k: int|
                        0 <= k < (#[trigger] vhosts@[a]).1.routes@.len() ==> (
                        #[trigger] vhosts@[a].1.routes@[k]).backends@.len() < 0x1_0000_0000)
                        && vhosts@[a].1.default_backends@.len() < 0x1_0000_0000),
            decreases n - i,
        {
            match parse_vhost_v2(&entries[i].1) {
                Ok(vh) => {
                    vhosts.push((entries[i].0.clone(), vh));
                },
                Err(e) => {
                    return Err(e);
                },
            }
            i += 1;
        }
    }
    let default = match json_get(doc, "default") {
        Some(m) => match parse_vhost(m) {
            Ok(vh) => Some(vh),
            Err(e) => {
                return Err(e);
            },
        },
        None => None,
    };
    let c = ConfigV2 { version, vhosts, default };
    Ok(c)
}

/// Build a legacy configuration from a parsed JSON document.
#[verifier::loop_isolation(false)]
pub fn parse_config(doc: &serde_json::Value) -> (r: Result<Config, String>)
{
    let version = match parse_version(doc) {
        Ok(n) => n,
        Err(e) => {
            return Err(e);
        },
    };
    let mut vhosts: Vec<(String, VHost)> = Vec::new();
    if let Some(m) = json_get(doc, "vhosts") {
        let entries = match json_object_entries(m) {
            Some(es) => es,
            None => {
                return Err(String::from_str("'vhosts' must be an object"));
            },
        };
        let n = entries.len();
        let mut i: usize = 0;
        while i < n
            invariant
                i <= n,
                n == entries@.len(),
            decreases n - i,
        {
            match parse_vhost(&entries[i].1) {
                Ok(vh) => {
                    vhosts.push((entries[i].0.clone(), vh));
                },
                Err(e) => {
                    return Err(e);
                },
            }
            i += 1;
        }
    }
    let default = match json_get(doc, "default") {
        Some(m) => match parse_vhost(m) {
            Ok(vh) => Some(vh),
            Err(e) => {
                return Err(e);
            },
        },
        None => None,
    };
    Ok(Config { version, vhosts, default })
}

/// Parse and validate legacy configuration text. `Ok` results are valid;
/// text that is not well-formed JSON is always rejected.
pub fn load_from_str(text: &str) -> (r: Result<Config, String>)
    ensures
        r matches Ok(c) ==> valid_config(c),
        !json_wf(text@) ==> r is Err,
{
    let doc = match json_parse(text) {
        Ok(d) => d,
        Err(e) => {
            let mut m = String::from_str("failed to parse config: ");
            m.append(e.as_str());
            return Err(m);
        },
    };
    let config = match parse_config(&doc) {
        Ok(c) => c,
        Err(e) => {
            return Err(e);
        },
    };
    match validate(&config) {
        Ok(_) => Ok(config),
        Err(e) => Err(e),
    }
}

/// Parse and validate route-based configuration text. `Ok` results are
/// valid and bounded, ready to compile and reload; text that is not
/// well-formed JSON is always rejected.
pub fn load_v2_from_str(text: &str) -> (r: Result<ConfigV2, String>)
    ensures
        r matches Ok(c) ==> valid_config_v2(c) && config_bounded(c),
        !json_wf(text@) ==> r is Err,
{
    let doc = match json_parse(text) {
        Ok(d) => d,
        Err(e) => {
            let mut m = String::from_str("failed to parse config: ");
            m.append(e.as_str());
            return Err(m);
        },
    };
    let config = match parse_config_v2(&doc) {
        Ok(c) => c,
        Err(e) => {
            return Err(e);
        },
    };
    match validate_v2(&config) {
        Ok(_) => Ok(config),
        Err(e) => Err(e),
    }
}

} // verus!
