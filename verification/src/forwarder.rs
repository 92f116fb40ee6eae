//! Per-request forwarding logic: authentication against the local
//! credential, target URL construction, header rewriting, body policy,
//! response classification, and chunk-by-chunk relay of event streams.
//!
//! `plan_request` is the pure decision the listener applies to every inbound
//! request under the configuration snapshot the request captured. The
//! unverified shell performs the dispatch the plan calls for and feeds the
//! upstream response back through `classify_response` and `SseRelay`.

use vstd::prelude::*;
use crate::server::ProxyConfig;
use crate::text::contains_seq;
use crate::text::eq_ignore_case;
use crate::text::lower_eq;
use crate::text::skip_chars;
use crate::text::spec_trim_end_slashes;
use crate::text::str_concat;
use crate::text::str_contains;
use crate::text::str_eq;
use crate::text::str_starts_with;
use crate::text::trim_end_slashes;
use vstd::string::StrSliceExecFns;
use vstd::string::StringExecFns;

verus! {

// ---------------------------------------------------------------------------
// Requests
// ---------------------------------------------------------------------------

/// An HTTP method. Bodies are read and forwarded for every method except
/// `GET` and `HEAD`.
#[derive(Debug)]
pub enum HttpMethod {
    Get,
    Head,
    Post,
    Put,
    Delete,
    Patch,
    Options,
    Trace,
    Connect,
    /// Any other method, by its name.
    Other(String),
}

impl Clone for HttpMethod {
    fn clone(&self) -> (r: Self)
        ensures
            r == *self,
    {
        match self {
            HttpMethod::Get => HttpMethod::Get,
            HttpMethod::Head => HttpMethod::Head,
            HttpMethod::Post => HttpMethod::Post,
            HttpMethod::Put => HttpMethod::Put,
            HttpMethod::Delete => HttpMethod::Delete,
            HttpMethod::Patch => HttpMethod::Patch,
            HttpMethod::Options => HttpMethod::Options,
            HttpMethod::Trace => HttpMethod::Trace,
            HttpMethod::Connect => HttpMethod::Connect,
            HttpMethod::Other(s) => HttpMethod::Other(s.clone()),
        }
    }
}

/// Whether a request body is read and forwarded for method `m`.
pub open spec fn forwards_body(m: HttpMethod) -> bool {
    !(m is Get || m is Head)
}

/// An inbound request as the listener hands it over: the header names as
/// received (matched case-insensitively), and the body already collected for
/// the methods that carry one.
pub struct InboundRequest {
    pub method: HttpMethod,
    pub path: String,
    pub query: Option<String>,
    pub headers: Vec<(String, String)>,
    pub body: Vec<u8>,
}

/// The views of a header list.
pub open spec fn header_views(v: Seq<(String, String)>) -> Seq<(Seq<char>, Seq<char>)> {
    Seq::new(v.len(), |i: int| (v[i].0@, v[i].1@))
}

/// The view of an optional string.
pub open spec fn opt_view(q: Option<String>) -> Option<Seq<char>> {
    match q {
        Some(s) => Some(s@),
        None => None,
    }
}

// ---------------------------------------------------------------------------
// Header lookup (case-insensitive names)
// ---------------------------------------------------------------------------

/// The position of the first header named `name` (ignoring ASCII case), or
/// `hs.len()` if there is none.
pub open spec fn hdr_idx(hs: Seq<(Seq<char>, Seq<char>)>, name: Seq<char>) -> int
    decreases hs.len(),
{
    if hs.len() == 0 {
        0
    } else if lower_eq(hs[0].0, name) {
        0
    } else {
        1 + hdr_idx(hs.drop_first(), name)
    }
}

pub proof fn lemma_hdr_idx(hs: Seq<(Seq<char>, Seq<char>)>, name: Seq<char>)
    ensures
        0 <= hdr_idx(hs, name) <= hs.len(),
        hdr_idx(hs, name) < hs.len() ==> lower_eq(hs[hdr_idx(hs, name)].0, name),
        forall|j: int| 0 <= j < hdr_idx(hs, name) ==> !lower_eq(hs[j].0, name),
    decreases hs.len(),
{
    if hs.len() > 0 && !lower_eq(hs[0].0, name) {
        lemma_hdr_idx(hs.drop_first(), name);
        assert forall|j: int| 0 <= j < hdr_idx(hs, name) implies !lower_eq(hs[j].0, name) by {
            if j > 0 {
                assert(hs.drop_first()[j - 1] == hs[j]);
            }
        }
    }
}

/// The first header named `name` is at `k` when no earlier header is.
pub proof fn lemma_hdr_idx_is(hs: Seq<(Seq<char>, Seq<char>)>, name: Seq<char>, k: int)
    requires
        0 <= k <= hs.len(),
        forall|j: int| 0 <= j < k ==> !lower_eq(hs[j].0, name),
        k < hs.len() ==> lower_eq(hs[k].0, name),
    ensures
        hdr_idx(hs, name) == k,
    decreases k,
{
    if k > 0 {
        assert(!lower_eq(hs[0].0, name));
        assert forall|j: int| 0 <= j < k - 1 implies !lower_eq(hs.drop_first()[j].0, name) by {
            assert(hs.drop_first()[j] == hs[j + 1]);
        }
        if k - 1 < hs.drop_first().len() {
            assert(hs.drop_first()[k - 1] == hs[k]);
        }
        lemma_hdr_idx_is(hs.drop_first(), name, k - 1);
    }
}

/// Whether some header is named `name`, ignoring ASCII case.
pub open spec fn hdr_has(hs: Seq<(Seq<char>, Seq<char>)>, name: Seq<char>) -> bool {
    hdr_idx(hs, name) < hs.len()
}

/// The value of the first header named `name`, ignoring ASCII case.
pub open spec fn hdr_get(hs: Seq<(Seq<char>, Seq<char>)>, name: Seq<char>) -> Option<Seq<char>> {
    if hdr_has(hs, name) {
        Some(hs[hdr_idx(hs, name)].1)
    } else {
        None
    }
}

/// Finds the first header named `name` (ignoring ASCII case).
fn find_header<'a>(headers: &'a Vec<(String, String)>, name: &str) -> (r: Option<&'a String>)
    ensures
        match r {
            Some(v) => hdr_get(header_views(headers@), name@) == Some(v@),
            None => hdr_get(header_views(headers@), name@) is None,
        },
{
    let n = headers.len();
    let mut i: usize = 0;
    while i < n
        invariant
            n == headers@.len(),
            0 <= i <= n,
            forall|j: int| 0 <= j < i ==> !lower_eq(header_views(headers@)[j].0, name@),
        decreases n - i,
    {
        if eq_ignore_case(headers[i].0.as_str(), name) {
            proof {
                lemma_hdr_idx_is(header_views(headers@), name@, i as int);
            }
            return Some(&headers[i].1);
        }
        i += 1;
    }
    proof {
        lemma_hdr_idx_is(header_views(headers@), name@, n as int);
    }
    None
}

// ---------------------------------------------------------------------------
// Local authentication
// ---------------------------------------------------------------------------

/// The raw credential string of a request: the `authorization` header if
/// present, else the `x-api-key` header, else empty.
pub open spec fn spec_auth_header_value(hs: Seq<(Seq<char>, Seq<char>)>) -> Seq<char> {
    match hdr_get(hs, "authorization"@) {
        Some(v) => v,
        None => match hdr_get(hs, "x-api-key"@) {
            Some(v) => v,
            None => Seq::empty(),
        },
    }
}

/// The token inside a credential string: a literal `"Bearer "` prefix is
/// stripped, else a literal `"x-api-key "` prefix, else the string itself.
pub open spec fn spec_extract_token(h: Seq<char>) -> Seq<char> {
    if "Bearer "@.is_prefix_of(h) {
        h.skip("Bearer "@.len() as int)
    } else if "x-api-key "@.is_prefix_of(h) {
        h.skip("x-api-key "@.len() as int)
    } else {
        h
    }
}

/// Whether a request presents `local_key`: its extracted token matches the
/// local credential character for character.
pub open spec fn spec_authorized(hs: Seq<(Seq<char>, Seq<char>)>, local_key: Seq<char>) -> bool {
    spec_extract_token(spec_auth_header_value(hs)) == local_key
}

/// Strips the credential scheme prefix from a raw header value.
fn extract_token(h: &str) -> (r: String)
    ensures
        r@ == spec_extract_token(h@),
{
    if str_starts_with(h, "Bearer ") {
        let n = "Bearer ".unicode_len();
        skip_chars(h, n)
    } else if str_starts_with(h, "x-api-key ") {
        let n = "x-api-key ".unicode_len();
        skip_chars(h, n)
    } else {
        h.to_owned()
    }
}

/// Checks the request's credential against the local key, byte for byte.
/// `authorization` takes precedence over `x-api-key`; a request with
/// neither presents the empty credential.
pub fn authenticate(headers: &Vec<(String, String)>, local_key: &str) -> (r: bool)
    ensures
        r == spec_authorized(header_views(headers@), local_key@),
{
    let raw: String = match find_header(headers, "authorization") {
        Some(v) => v.clone(),
        None => match find_header(headers, "x-api-key") {
            Some(v) => v.clone(),
            None => String::new(),
        },
    };
    let token = extract_token(raw.as_str());
    str_eq(token.as_str(), local_key)
}

// ---------------------------------------------------------------------------
// Target URL
// ---------------------------------------------------------------------------

/// The outbound URL: the base with trailing slashes stripped, then the
/// inbound path verbatim, then `'?'` and the query when one was sent.
pub open spec fn spec_target_url(
    base: Seq<char>,
    path: Seq<char>,
    query: Option<Seq<char>>,
) -> Seq<char> {
    spec_trim_end_slashes(base) + path + match query {
        Some(q) => seq!['?'] + q,
        None => Seq::<char>::empty(),
    }
}

/// Builds the outbound URL from the configured base and the inbound
/// path and query.
pub fn build_target_url(base: &str, path: &str, query: &Option<String>) -> (r: String)
    ensures
        r@ == spec_target_url(base@, path@, opt_view(*query)),
{
    let mut url = trim_end_slashes(base);
    url.append(path);
    match query {
        Some(q) => {
            url.append("?");
            url.append(q.as_str());
            proof {
                reveal_strlit("?");
                assert("?"@ =~= seq!['?']);
                assert(url@ =~= spec_target_url(base@, path@, opt_view(*query)));
            }
        },
        None => {
            proof {
                assert(url@ =~= spec_target_url(base@, path@, opt_view(*query)));
            }
        },
    }
    url
}

// ---------------------------------------------------------------------------
// Header rewriting
// ---------------------------------------------------------------------------

/// The value injected upstream: `"Bearer "` and the real key.
pub open spec fn spec_bearer(key: Seq<char>) -> Seq<char> {
    "Bearer "@ + key
}

/// A header name that carries the inbound credential.
pub open spec fn is_auth_name(n: Seq<char>) -> bool {
    lower_eq(n, "authorization"@) || lower_eq(n, "x-api-key"@)
}

/// The `host` header, which the outbound client sets for itself.
pub open spec fn is_host_name(n: Seq<char>) -> bool {
    lower_eq(n, "host"@)
}

/// The rewritten header list: `host` dropped, each credential header
/// replaced by `authorization: Bearer <key>`, everything else kept in
/// order.
pub open spec fn spec_rewrite(hs: Seq<(Seq<char>, Seq<char>)>, key: Seq<char>) -> Seq<
    (Seq<char>, Seq<char>),
>
    decreases hs.len(),
{
    if hs.len() == 0 {
        Seq::empty()
    } else {
        let rest = spec_rewrite(hs.drop_first(), key);
        if is_host_name(hs[0].0) {
            rest
        } else if is_auth_name(hs[0].0) {
            seq![("authorization"@, spec_bearer(key))] + rest
        } else {
            seq![hs[0]] + rest
        }
    }
}

/// The full outbound header list: the rewrite, with the bearer header
/// appended when the inbound request carried no credential header at all.
pub open spec fn spec_outbound_headers(hs: Seq<(Seq<char>, Seq<char>)>, key: Seq<char>) -> Seq<
    (Seq<char>, Seq<char>),
> {
    if hdr_has(hs, "authorization"@) || hdr_has(hs, "x-api-key"@) {
        spec_rewrite(hs, key)
    } else {
        spec_rewrite(hs, key).push(("authorization"@, spec_bearer(key)))
    }
}

/// Rewrites the inbound headers for the upstream request.
pub fn rewrite_headers(headers: &Vec<(String, String)>, target_key: &str) -> (r: Vec<
    (String, String),
>)
    ensures
        header_views(r@) == spec_outbound_headers(header_views(headers@), target_key@),
{
    let ghost hv = header_views(headers@);
    let bearer = str_concat("Bearer ", target_key);
    let mut out: Vec<(String, String)> = Vec::new();
    let mut saw_auth = false;
    let n = headers.len();
    let mut i: usize = 0;
    proof {
        assert(hv.skip(0) =~= hv);
        assert(header_views(out@) =~= Seq::<(Seq<char>, Seq<char>)>::empty());
        assert(Seq::<(Seq<char>, Seq<char>)>::empty() + spec_rewrite(hv, target_key@)
            =~= spec_rewrite(hv, target_key@));
    }
    while i < n
        invariant
            n == headers@.len(),
            hv == header_views(headers@),
            0 <= i <= n,
            bearer@ == spec_bearer(target_key@),
            header_views(out@) + spec_rewrite(hv.skip(i as int), target_key@) == spec_rewrite(
                hv,
                target_key@,
            ),
            saw_auth == exists|j: int| 0 <= j < i && is_auth_name(#[trigger] hv[j].0),
        decreases n - i,
    {
        proof {
            assert(hv.skip(i as int).drop_first() =~= hv.skip(i + 1));
            assert(hv.skip(i as int)[0] == hv[i as int]);
        }
        let is_host = eq_ignore_case(headers[i].0.as_str(), "host");
        let is_authz = eq_ignore_case(headers[i].0.as_str(), "authorization");
        let is_xkey = eq_ignore_case(headers[i].0.as_str(), "x-api-key");
        if is_host {
            // dropped: the outbound client sets its own host header
            proof {
                lemma_host_not_auth(hv[i as int].0);
                if exists|j: int| 0 <= j < i + 1 && is_auth_name(#[trigger] hv[j].0) {
                    let j = choose|j: int| 0 <= j < i + 1 && is_auth_name(#[trigger] hv[j].0);
                    assert(j < i);
                }
            }
        } else if is_authz || is_xkey {
            out.push(("authorization".to_owned(), bearer.clone()));
            proof {
                assert(header_views(out@) =~= header_views(out@.drop_last()) + seq![
                    ("authorization"@, spec_bearer(target_key@)),
                ]);
                assert(is_auth_name(hv[i as int].0));
            }
            saw_auth = true;
        } else {
            out.push((headers[i].0.clone(), headers[i].1.clone()));
            proof {
                assert(header_views(out@) =~= header_views(out@.drop_last()) + seq![hv[i as int]]);
                if exists|j: int| 0 <= j < i + 1 && is_auth_name(#[trigger] hv[j].0) {
                    let j = choose|j: int| 0 <= j < i + 1 && is_auth_name(#[trigger] hv[j].0);
                    assert(j < i);
                }
            }
        }
        i += 1;
    }
    proof {
        assert(hv.skip(n as int) =~= Seq::<(Seq<char>, Seq<char>)>::empty());
        assert(header_views(out@) + Seq::<(Seq<char>, Seq<char>)>::empty() =~= header_views(out@));
        lemma_hdr_idx(hv, "authorization"@);
        lemma_hdr_idx(hv, "x-api-key"@);
        if saw_auth {
            let j = choose|j: int| 0 <= j < n && is_auth_name(#[trigger] hv[j].0);
            if lower_eq(hv[j].0, "authorization"@) {
                lemma_hdr_idx_present(hv, "authorization"@, j);
            } else {
                lemma_hdr_idx_present(hv, "x-api-key"@, j);
            }
        }
    }
    if !saw_auth {
        out.push(("authorization".to_owned(), bearer));
        proof {
            assert(header_views(out@) =~= header_views(out@.drop_last()).push(
                ("authorization"@, spec_bearer(target_key@)),
            ));
        }
    }
    out
}

/// A name match anywhere puts the first match within bounds.
proof fn lemma_hdr_idx_present(hs: Seq<(Seq<char>, Seq<char>)>, name: Seq<char>, j: int)
    requires
        0 <= j < hs.len(),
        lower_eq(hs[j].0, name),
    ensures
        hdr_has(hs, name),
{
    lemma_hdr_idx(hs, name);
    if hdr_idx(hs, name) >= hs.len() {
        assert(!lower_eq(hs[j].0, name));
    }
}

/// Every outbound credential header carries the real key, and one exists:
/// whatever credential the inbound request presented, the upstream sees
/// exactly `authorization: Bearer <target key>`, and no `x-api-key` header
/// survives.
pub proof fn lemma_outbound_auth_header(hs: Seq<(Seq<char>, Seq<char>)>, key: Seq<char>)
    ensures
        exists|i: int|
            0 <= i < spec_outbound_headers(hs, key).len() && (#[trigger] spec_outbound_headers(
                hs,
                key,
            )[i]) == ("authorization"@, spec_bearer(key)),
        forall|i: int|
            0 <= i < spec_outbound_headers(hs, key).len() && is_auth_name(
                (#[trigger] spec_outbound_headers(hs, key)[i]).0,
            ) ==> spec_outbound_headers(hs, key)[i] == ("authorization"@, spec_bearer(key)),
{
    lemma_rewrite_auth(hs, key);
    lemma_hdr_idx(hs, "authorization"@);
    lemma_hdr_idx(hs, "x-api-key"@);
    let out = spec_outbound_headers(hs, key);
    if hdr_has(hs, "authorization"@) || hdr_has(hs, "x-api-key"@) {
        // the rewrite replaced that header in place
    } else {
        let r = spec_rewrite(hs, key);
        assert(out[r.len() as int] == ("authorization"@, spec_bearer(key)));
        assert forall|i: int| 0 <= i < out.len() && is_auth_name((#[trigger] out[i]).0) implies
            out[i] == ("authorization"@, spec_bearer(key)) by {
            if i < r.len() {
                assert(out[i] == r[i]);
            }
        }
    }
}

/// In the rewrite itself: every credential-named header equals the injected
/// bearer pair, and one exists as soon as the input held any
/// credential-named header.
proof fn lemma_rewrite_auth(hs: Seq<(Seq<char>, Seq<char>)>, key: Seq<char>)
    ensures
        forall|i: int|
            0 <= i < spec_rewrite(hs, key).len() && is_auth_name(
                (#[trigger] spec_rewrite(hs, key)[i]).0,
            ) ==> spec_rewrite(hs, key)[i] == ("authorization"@, spec_bearer(key)),
        (exists|j: int| 0 <= j < hs.len() && is_auth_name(#[trigger] hs[j].0)) ==> exists|i: int|
            0 <= i < spec_rewrite(hs, key).len() && (#[trigger] spec_rewrite(hs, key)[i]) == (
            "authorization"@,
            spec_bearer(key),
            ),
    decreases hs.len(),
{
    reveal_strlit("authorization");
    if hs.len() > 0 {
        lemma_rewrite_auth(hs.drop_first(), key);
        let rest = spec_rewrite(hs.drop_first(), key);
        let whole = spec_rewrite(hs, key);
        if is_host_name(hs[0].0) {
            assert(whole == rest);
            if exists|j: int| 0 <= j < hs.len() && is_auth_name(#[trigger] hs[j].0) {
                let j = choose|j: int| 0 <= j < hs.len() && is_auth_name(#[trigger] hs[j].0);
                // host is not a credential name: the witness is past position 0
                assert(j != 0) by {
                    lemma_host_not_auth(hs[0].0);
                }
                assert(hs.drop_first()[j - 1] == hs[j]);
                let i0 = choose|i: int|
                    0 <= i < rest.len() && (#[trigger] rest[i]) == (
                        "authorization"@,
                        spec_bearer(key),
                    );
                assert((#[trigger] spec_rewrite(hs, key)[i0]) == (
                    "authorization"@,
                    spec_bearer(key),
                ));
            }
        } else if is_auth_name(hs[0].0) {
            assert(whole == seq![("authorization"@, spec_bearer(key))] + rest);
            assert((#[trigger] spec_rewrite(hs, key)[0]) == ("authorization"@, spec_bearer(key)));
            assert forall|i: int| 0 <= i < whole.len() && is_auth_name(
                (#[trigger] whole[i]).0,
            ) implies whole[i] == ("authorization"@, spec_bearer(key)) by {
                if i > 0 {
                    assert(whole[i] == rest[i - 1]);
                }
            }
        } else {
            assert(whole == seq![hs[0]] + rest);
            assert forall|i: int| 0 <= i < whole.len() && is_auth_name(
                (#[trigger] whole[i]).0,
            ) implies whole[i] == ("authorization"@, spec_bearer(key)) by {
                if i > 0 {
                    assert(whole[i] == rest[i - 1]);
                }
            }
            if exists|j: int| 0 <= j < hs.len() && is_auth_name(#[trigger] hs[j].0) {
                let j = choose|j: int| 0 <= j < hs.len() && is_auth_name(#[trigger] hs[j].0);
                assert(j != 0);
                assert(hs.drop_first()[j - 1] == hs[j]);
                let i0 = choose|i: int|
                    0 <= i < rest.len() && (#[trigger] rest[i]) == (
                        "authorization"@,
                        spec_bearer(key),
                    );
                assert(whole[i0 + 1] == rest[i0]);
                assert((#[trigger] spec_rewrite(hs, key)[i0 + 1]) == (
                    "authorization"@,
                    spec_bearer(key),
                ));
            }
        }
    }
}

/// `host` is neither credential header name.
proof fn lemma_host_not_auth(n: Seq<char>)
    requires
        is_host_name(n),
    ensures
        !is_auth_name(n),
{
    reveal_strlit("host");
    reveal_strlit("authorization");
    reveal_strlit("x-api-key");
}

// ---------------------------------------------------------------------------
// The forwarding decision
// ---------------------------------------------------------------------------

/// The upstream request the proxy sends on behalf of an authorized inbound
/// request.
pub struct OutboundRequest {
    pub method: HttpMethod,
    pub url: String,
    pub headers: Vec<(String, String)>,
    /// The buffered request body; `None` for `GET`/`HEAD` and for an empty
    /// body.
    pub body: Option<Vec<u8>>,
}

/// What the proxy does with one inbound request.
pub enum ForwardDecision {
    /// No configuration is set: reject without touching the network.
    NotConfigured,
    /// The local credential did not match: reject with `401`, no upstream
    /// call.
    Unauthorized,
    /// Dispatch this upstream request and relay its response.
    Forward(OutboundRequest),
}

fn copy_bytes(v: &Vec<u8>) -> (r: Vec<u8>)
    ensures
        r@ == v@,
{
    let mut r: Vec<u8> = Vec::new();
    let n = v.len();
    let mut i: usize = 0;
    while i < n
        invariant
            n == v@.len(),
            0 <= i <= n,
            r@ =~= v@.take(i as int),
        decreases n - i,
    {
        r.push(v[i]);
        i += 1;
    }
    proof {
        assert(v@.take(n as int) =~= v@);
    }
    r
}

/// Decides one request under the configuration snapshot it captured.
///
/// With no configuration every request is rejected before any other work.
/// With one, the request is rejected with `401` unless it presents the
/// local credential; only an authenticated request yields an upstream
/// dispatch, whose URL, headers, and body are fixed here.
pub fn plan_request(config: &Option<ProxyConfig>, req: &InboundRequest) -> (r: ForwardDecision)
    ensures
        (config is None) <==> (r is NotConfigured),
        (config matches Some(c) && !spec_authorized(header_views(req.headers@), c.local_api_key@))
            <==> (r is Unauthorized),
        config matches Some(c) ==> (spec_authorized(header_views(req.headers@), c.local_api_key@)
            ==> (r matches ForwardDecision::Forward(o) && {
            &&& o.method == req.method
            &&& o.url@ == spec_target_url(c.target_base_url@, req.path@, opt_view(req.query))
            &&& header_views(o.headers@) == spec_outbound_headers(
                header_views(req.headers@),
                c.target_api_key@,
            )
            &&& (forwards_body(req.method) && req.body@.len() > 0 ==> (o.body matches Some(b) && b@
                == req.body@))
            &&& (!(forwards_body(req.method) && req.body@.len() > 0) ==> o.body is None)
        })),
{
    let c = match config {
        None => {
            return ForwardDecision::NotConfigured;
        },
        Some(c) => c,
    };
    if !authenticate(&req.headers, c.local_api_key.as_str()) {
        return ForwardDecision::Unauthorized;
    }
    let url = build_target_url(c.target_base_url.as_str(), req.path.as_str(), &req.query);
    let headers = rewrite_headers(&req.headers, c.target_api_key.as_str());
    let wants_body = match req.method {
        HttpMethod::Get => false,
        HttpMethod::Head => false,
        _ => true,
    };
    let body = if wants_body && req.body.len() > 0 {
        Some(copy_bytes(&req.body))
    } else {
        None
    };
    ForwardDecision::Forward(OutboundRequest { method: req.method.clone(), url, headers, body })
}

// ---------------------------------------------------------------------------
// Rejection and failure responses
// ---------------------------------------------------------------------------

/// The local response for a rejected request: `503` with a fixed body when
/// no configuration is set, `401` with a fixed body for a bad credential,
/// nothing for a request that is forwarded.
pub fn response_for_rejection(d: &ForwardDecision) -> (r: Option<(u16, String)>)
    ensures
        d is NotConfigured ==> (r matches Some(p) && p.0 == 503 && p.1@
            == "proxy not configured"@),
        d is Unauthorized ==> (r matches Some(p) && p.0 == 401 && p.1@
            == "Unauthorized: Invalid API Key"@),
        d is Forward ==> r is None,
{
    match d {
        ForwardDecision::NotConfigured => Some((503, "proxy not configured".to_owned())),
        ForwardDecision::Unauthorized => Some((401, "Unauthorized: Invalid API Key".to_owned())),
        ForwardDecision::Forward(_) => None,
    }
}

/// The local response for a failure while dispatching or relaying: `500`
/// with a readable message. Failures never tear down the listener.
pub fn failure_response(detail: &str) -> (r: (u16, String))
    ensures
        r.0 == 500,
        r.1@ == "proxy error: "@ + detail@,
{
    (500, str_concat("proxy error: ", detail))
}

// ---------------------------------------------------------------------------
// Response classification and stream relay
// ---------------------------------------------------------------------------

/// How an upstream response is returned to the client.
#[derive(Clone, Copy, Debug, PartialEq, Eq, Structural)]
pub enum ResponseMode {
    /// Relay each upstream chunk as one frame, as it arrives.
    Streaming,
    /// Read the whole body, then return it as one unit.
    Buffered,
}

/// Whether the upstream response is an event stream: its `content-type`
/// contains `text/event-stream`.
pub open spec fn spec_is_sse(hs: Seq<(Seq<char>, Seq<char>)>) -> bool {
    match hdr_get(hs, "content-type"@) {
        Some(v) => contains_seq(v, "text/event-stream"@),
        None => false,
    }
}

/// Classifies an upstream response by its headers. Status and headers are
/// passed through to the client unmodified either way.
pub fn classify_response(headers: &Vec<(String, String)>) -> (r: ResponseMode)
    ensures
        (r == ResponseMode::Streaming) <==> spec_is_sse(header_views(headers@)),
{
    match find_header(headers, "content-type") {
        Some(v) => {
            if str_contains(v.as_str(), "text/event-stream") {
                ResponseMode::Streaming
            } else {
                ResponseMode::Buffered
            }
        },
        None => ResponseMode::Buffered,
    }
}

/// The relay of one event stream: every upstream chunk goes out as one
/// frame, unchanged and in arrival order; nothing is buffered, merged, or
/// split. The ghost history records what has been forwarded.
pub struct SseRelay {
    pub forwarded: Ghost<Seq<Seq<u8>>>,
}

impl SseRelay {
    /// A relay that has forwarded nothing.
    pub fn new() -> (r: Self)
        ensures
            r.forwarded@ == Seq::<Seq<u8>>::empty(),
    {
        SseRelay { forwarded: Ghost(Seq::empty()) }
    }

    /// Forwards one upstream chunk as one frame: the frame is the chunk,
    /// byte for byte, appended to the history.
    pub fn forward_chunk(&mut self, chunk: Vec<u8>) -> (frame: Vec<u8>)
        ensures
            frame@ == chunk@,
            final(self).forwarded@ == old(self).forwarded@.push(chunk@),
    {
        self.forwarded = Ghost(self.forwarded@.push(chunk@));
        chunk
    }
}

/// Relays a whole stream of `n` chunks: exactly `n` frames come out, in the
/// same order, each with the content of its chunk.
pub fn forward_all(chunks: &Vec<Vec<u8>>) -> (frames: Vec<Vec<u8>>)
    ensures
        frames@.len() == chunks@.len(),
        forall|i: int| 0 <= i < chunks@.len() ==> (#[trigger] frames@[i])@ == chunks@[i]@,
{
    let mut relay = SseRelay::new();
    let mut frames: Vec<Vec<u8>> = Vec::new();
    let n = chunks.len();
    let mut i: usize = 0;
    while i < n
        invariant
            n == chunks@.len(),
            0 <= i <= n,
            frames@.len() == i,
            relay.forwarded@.len() == i,
            forall|j: int| 0 <= j < i ==> (#[trigger] frames@[j])@ == chunks@[j]@,
        decreases n - i,
    {
        let chunk = copy_bytes(&chunks[i]);
        let frame = relay.forward_chunk(chunk);
        frames.push(frame);
        i += 1;
    }
    frames
}

} // verus!
