//! Synthetic redirect backend: computes the `Location` target from the
//! redirect filter and the captured request components.

use vstd::prelude::*;
use vstd::string::*;
use crate::config::{RequestRedirectFilter, RequestRedirectFilterView};
use crate::strutil::{
    dec_str, fmt_u64, push_char, str_eq, str_find, str_starts_with, find_idx, lemma_find_idx,
    is_prefix_of,
};
use crate::not_found_backend::read_from;

verus! {

/// Stateless redirect backend; the per-request configuration travels beside
/// the request.
pub struct RedirectBackend;

/// Redirect configuration captured when a redirect filter matches.
#[derive(Debug, Clone)]
pub struct RedirectConfig {
    pub filter: RequestRedirectFilter,
    pub original_scheme: String,
    pub original_hostname: String,
    pub original_port: u16,
    pub original_path: String,
    pub original_query: String,
    pub matched_path: Option<String>,
}

/// Redirect configuration, by view.
#[verifier::ext_equal]
pub struct RedirectConfigView {
    pub filter: RequestRedirectFilterView,
    pub original_scheme: Seq<char>,
    pub original_hostname: Seq<char>,
    pub original_port: u16,
    pub original_path: Seq<char>,
    pub original_query: Seq<char>,
    pub matched_path: Option<Seq<char>>,
}

impl View for RedirectConfig {
    type V = RedirectConfigView;

    open spec fn view(&self) -> RedirectConfigView {
        RedirectConfigView {
            filter: self.filter@,
            original_scheme: self.original_scheme@,
            original_hostname: self.original_hostname@,
            original_port: self.original_port,
            original_path: self.original_path@,
            original_query: self.original_query@,
            matched_path: crate::config::opt_str_view(self.matched_path),
        }
    }
}

/// A default port that a `Location` omits: 80 for http, 443 for https.
pub open spec fn omit_port(scheme: Seq<char>, port: u16) -> bool {
    (scheme == "http"@ && port == 80) || (scheme == "https"@ && port == 443)
}

/// Whether the port can be left out of the `Location`.
pub fn should_omit_port(scheme: &str, port: u16) -> (r: bool)
    ensures
        r == omit_port(scheme@, port),
{
    (str_eq(scheme, "http") && port == 80) || (str_eq(scheme, "https") && port == 443)
}

/// Trailing `/` characters removed.
pub open spec fn trim_trailing_slashes(s: Seq<char>) -> Seq<char>
    decreases s.len(),
{
    if s.len() > 0 && s[s.len() - 1] == '/' {
        trim_trailing_slashes(s.drop_last())
    } else {
        s
    }
}

/// Remove trailing `/` characters.
pub fn trim_end_slashes(s: &str) -> (r: &str)
    ensures
        r@ == trim_trailing_slashes(s@),
{
    let mut end = s.unicode_len();
    proof {
        assert(s@.subrange(0, s@.len() as int) =~= s@);
    }
    while end > 0 && s.get_char(end - 1) == '/'
        invariant
            end <= s@.len(),
            trim_trailing_slashes(s@) == trim_trailing_slashes(s@.subrange(0, end as int)),
        decreases end,
    {
        proof {
            assert(s@.subrange(0, end as int).drop_last() =~= s@.subrange(0, end - 1));
        }
        end -= 1;
    }
    proof {
        if end > 0 {
            assert(trim_trailing_slashes(s@.subrange(0, end as int)) == s@.subrange(
                0,
                end as int,
            ));
        } else {
            assert(s@.subrange(0, 0) =~= Seq::<char>::empty());
        }
    }
    s.substring_char(0, end)
}

/// The first-segment replacement heuristic: the first path segment is
/// replaced by `new_prefix` (trailing slashes trimmed), the rest kept.
pub open spec fn heuristic_spec(path: Seq<char>, new_prefix: Seq<char>) -> Seq<char> {
    if path.len() > 0 && path[0] == '/' {
        let i = find_idx(path.skip(1), '/');
        let remainder = if i >= 0 {
            path.skip(i + 2)
        } else {
            Seq::<char>::empty()
        };
        let trimmed = trim_trailing_slashes(new_prefix);
        if remainder.len() == 0 {
            trimmed
        } else {
            trimmed + seq!['/'] + remainder
        }
    } else {
        new_prefix
    }
}

/// Replace the first path segment with `new_prefix`, keeping the remainder.
/// Fallback for `ReplacePrefixMatch` when the matched prefix is unknown.
pub fn replace_first_segment_heuristic(path: &str, new_prefix: &str) -> (r: String)
    ensures
        r@ == heuristic_spec(path@, new_prefix@),
{
    proof {
        reveal_strlit("");
    }
    let n = path.unicode_len();
    if n > 0 && path.get_char(0) == '/' {
        let tail = path.substring_char(1, n);
        proof {
            assert(tail@ =~= path@.skip(1));
        }
        let trimmed = trim_end_slashes(new_prefix);
        let remainder: &str = match str_find(tail, '/') {
            Some(i) => {
                let rem = tail.substring_char(i + 1, n - 1);
                proof {
                    assert(rem@ =~= path@.skip(find_idx(path@.skip(1), '/') + 2));
                }
                rem
            },
            None => "",
        };
        if remainder.unicode_len() == 0 {
            proof {
                if find_idx(path@.skip(1), '/') >= 0 {
                    assert(heuristic_spec(path@, new_prefix@) == trim_trailing_slashes(
                        new_prefix@,
                    ));
                }
            }
            String::from_str(trimmed)
        } else {
            let mut out = String::from_str(trimmed);
            push_char(&mut out, '/');
            out.append(remainder);
            proof {
                assert(out@ =~= heuristic_spec(path@, new_prefix@));
            }
            out
        }
    } else {
        proof {
            reveal_strlit("");
        }
        String::from_str(new_prefix)
    }
}

/// The path a redirect sends the client to: a full replacement wins; a
/// prefix replacement strips the matched prefix and joins the remainder,
/// falling back to the first-segment heuristic when no usable prefix is
/// known; otherwise the path is unchanged.
pub open spec fn rewrite_path_spec(
    filter: RequestRedirectFilterView,
    path: Seq<char>,
    matched: Option<Seq<char>>,
) -> Seq<char> {
    match filter.replace_full_path {
        Some(p) => p,
        None => match filter.replace_prefix_match {
            Some(np) => match matched {
                Some(mp) => if is_prefix_of(mp, path) {
                    let remainder = path.skip(mp.len() as int);
                    let trimmed = trim_trailing_slashes(np);
                    if remainder.len() == 0 {
                        trimmed
                    } else if remainder[0] == '/' {
                        trimmed + remainder
                    } else {
                        trimmed + seq!['/'] + remainder
                    }
                } else {
                    heuristic_spec(path, np)
                },
                None => heuristic_spec(path, np),
            },
            None => path,
        },
    }
}

/// Apply the redirect filter's path rewrite.
pub fn rewrite_path(
    filter: &RequestRedirectFilter,
    original_path: &str,
    matched_path_str: Option<&str>,
) -> (r: String)
    ensures
        r@ == rewrite_path_spec(
            filter@,
            original_path@,
            match matched_path_str {
                Some(s) => Some(s@),
                None => None,
            },
        ),
{
    if let Some(full_path) = &filter.replace_full_path {
        return full_path.clone();
    }
    if let Some(new_prefix) = &filter.replace_prefix_match {
        if let Some(matched_prefix) = matched_path_str {
            if str_starts_with(original_path, matched_prefix) {
                let n = original_path.unicode_len();
                let ml = matched_prefix.unicode_len();
                let remainder = original_path.substring_char(ml, n);
                proof {
                    assert(remainder@ =~= original_path@.skip(matched_prefix@.len() as int));
                }
                let trimmed = trim_end_slashes(new_prefix.as_str());
                if remainder.unicode_len() == 0 {
                    return String::from_str(trimmed);
                }
                if remainder.get_char(0) == '/' {
                    let mut out = String::from_str(trimmed);
                    out.append(remainder);
                    return out;
                }
                let mut out = String::from_str(trimmed);
                push_char(&mut out, '/');
                out.append(remainder);
                proof {
                    assert(out@ =~= trim_trailing_slashes(new_prefix@) + seq!['/'] + remainder@);
                }
                return out;
            }
        }
        return replace_first_segment_heuristic(original_path, new_prefix.as_str());
    }
    String::from_str(original_path)
}

/// The scheme of the `Location`: the filter's, else the original.
pub open spec fn location_scheme(c: RedirectConfigView) -> Seq<char> {
    match c.filter.scheme {
        Some(s) => s,
        None => c.original_scheme,
    }
}

/// The hostname of the `Location`: the filter's, else the original.
pub open spec fn location_hostname(c: RedirectConfigView) -> Seq<char> {
    match c.filter.hostname {
        Some(h) => h,
        None => c.original_hostname,
    }
}

/// The port of the `Location`: an explicit filter port wins; a scheme
/// change without one falls back to the new scheme's default; otherwise
/// the original port is kept.
pub open spec fn location_port(c: RedirectConfigView) -> u16 {
    match c.filter.port {
        Some(p) => p,
        None => if c.filter.scheme is Some && c.filter.scheme != Some(c.original_scheme) {
            if location_scheme(c) == "https"@ {
                443u16
            } else {
                80u16
            }
        } else {
            c.original_port
        },
    }
}

/// The full `Location` text: scheme, hostname, a non-default port, the
/// rewritten path, and the preserved query string.
pub open spec fn location_text(c: RedirectConfigView) -> Seq<char> {
    let scheme = location_scheme(c);
    let hostname = location_hostname(c);
    let port = location_port(c);
    let path = rewrite_path_spec(c.filter, c.original_path, c.matched_path);
    let base = scheme + "://"@ + hostname;
    let with_port = if omit_port(scheme, port) {
        base
    } else {
        base + seq![':'] + dec_str(port as nat)
    };
    let with_path = with_port + path;
    if c.original_query.len() > 0 {
        with_path + seq!['?'] + c.original_query
    } else {
        with_path
    }
}

/// Build the `Location` header value for a redirect.
pub fn build_location(config: &RedirectConfig) -> (r: Result<String, String>)
    ensures
        r matches Ok(loc) ==> loc@ == location_text(config@),
        r is Ok,
{
    let scheme: &str = match &config.filter.scheme {
        Some(s) => s.as_str(),
        None => config.original_scheme.as_str(),
    };
    let hostname: &str = match &config.filter.hostname {
        Some(h) => h.as_str(),
        None => config.original_hostname.as_str(),
    };
    let scheme_changed = match &config.filter.scheme {
        Some(s) => !str_eq(s.as_str(), config.original_scheme.as_str()),
        None => false,
    };
    let port: u16 = match config.filter.port {
        Some(p) => p,
        None => {
            if scheme_changed {
                if str_eq(scheme, "https") {
                    443
                } else {
                    80
                }
            } else {
                config.original_port
            }
        },
    };
    proof {
        assert(scheme@ == location_scheme(config@));
        assert(hostname@ == location_hostname(config@));
        assert(port == location_port(config@));
    }
    let path = rewrite_path(
        &config.filter,
        config.original_path.as_str(),
        match &config.matched_path {
            Some(s) => Some(s.as_str()),
            None => None,
        },
    );
    let mut location = String::from_str(scheme);
    location.append("://");
    location.append(hostname);
    if !should_omit_port(scheme, port) {
        push_char(&mut location, ':');
        location.append(fmt_u64(port as u64).as_str());
    }
    location.append(path.as_str());
    if config.original_query.as_str().unicode_len() > 0 {
        push_char(&mut location, '?');
        location.append(config.original_query.as_str());
    }
    proof {
        assert(location@ =~= location_text(config@));
    }
    Ok(location)
}

/// Status set on the synthetic redirect response.
impl RedirectBackend {
    pub fn status_code(&self, config: &RedirectConfig) -> (r: u16)
        ensures
            r == config.filter.status_code,
    {
        config.filter.status_code
    }

    /// The (empty) response body.
    pub fn response_body(&self) -> (r: RedirectBody)
        ensures
            r.cursor == 0,
    {
        RedirectBody::new()
    }
}

/// Empty response body of a redirect.
pub struct RedirectBody {
    pub data: Vec<u8>,
    pub cursor: usize,
}

impl RedirectBody {
    pub open spec fn wf(&self) -> bool {
        self.cursor <= self.data@.len()
    }

    /// Create a new empty redirect response body.
    pub fn new() -> (r: RedirectBody)
        ensures
            r.cursor == 0,
            r.data@.len() == 0,
            r.wf(),
    {
        RedirectBody { data: Vec::new(), cursor: 0 }
    }

    /// Read up to `max` bytes; an empty body always yields nothing.
    pub fn read(&mut self, max: usize) -> (r: Vec<u8>)
        requires
            old(self).wf(),
        ensures
            final(self).wf(),
            final(self).data == old(self).data,
            r@.len() == 0 || r@.len() <= max,
            old(self).data@.len() == 0 ==> r@.len() == 0,
    {
        read_from(&self.data, &mut self.cursor, max)
    }

    /// Total body length.
    pub fn len(&self) -> (r: Option<usize>)
        ensures
            r == Some((self.data@.len() as usize)),
    {
        Some(self.data.len())
    }
}

} // verus!
