//! The tunnel adapter's decisions: the request relayed over an open data
//! channel and the test that decides whether the transaction succeeded.
//!
//! The adapter performs exactly one HTTP transaction per channel. The byte
//! transport and the HTTP client itself stay outside; this module fixes what
//! is sent (the request derived from the resolved origin) and what counts as
//! success (exactly the status `200`, the status `OK`).

use vstd::prelude::*;

use crate::routes::{spec_split_channel_name, split_channel_name, SLASH};

verus! {

/// The one status code that counts as relay success.
pub const SUCCESS_STATUS: u16 = 200;

/// Whether an HTTP status code counts as relay success.
pub open spec fn spec_is_success_status(code: u16) -> bool {
    code == SUCCESS_STATUS
}

/// True exactly of the one success status, `200`.
pub fn is_success_status(code: u16) -> (r: bool)
    ensures
        r == spec_is_success_status(code),
{
    code == SUCCESS_STATUS
}

/// The bytes of `http://`.
pub open spec fn http_scheme() -> Seq<u8> {
    seq![104u8, 116u8, 116u8, 112u8, 58u8, 47u8, 47u8]
}

/// The bytes of `https://`.
pub open spec fn https_scheme() -> Seq<u8> {
    seq![104u8, 116u8, 116u8, 112u8, 115u8, 58u8, 47u8, 47u8]
}

/// Whether `s` starts with `p`.
pub open spec fn spec_has_prefix(s: Seq<u8>, p: Seq<u8>) -> bool {
    p.len() <= s.len() && s.subrange(0, p.len() as int) == p
}

/// The origin with a leading `http://` or `https://` scheme removed.
pub open spec fn spec_strip_scheme(origin: Seq<u8>) -> Seq<u8> {
    if spec_has_prefix(origin, http_scheme()) {
        origin.skip(http_scheme().len() as int)
    } else if spec_has_prefix(origin, https_scheme()) {
        origin.skip(https_scheme().len() as int)
    } else {
        origin
    }
}

/// The host part of an origin: the scheme is stripped and everything from
/// the first `/` on is dropped.
pub open spec fn spec_host_of_origin(origin: Seq<u8>) -> Seq<u8> {
    spec_split_channel_name(spec_strip_scheme(origin)).0
}

/// Whether `s` starts with `p`, byte for byte.
fn has_prefix(s: &Vec<u8>, p: &Vec<u8>) -> (r: bool)
    ensures
        r == spec_has_prefix(s@, p@),
{
    let m = p.len();
    if m > s.len() {
        return false;
    }
    let mut i: usize = 0;
    while i < m
        invariant
            0 <= i <= m,
            m == p@.len() <= s@.len(),
            forall|j: int| 0 <= j < i ==> s@[j] == p@[j],
        decreases m - i,
    {
        if s[i] != p[i] {
            assert(s@.subrange(0, m as int)[i as int] != p@[i as int]);
            return false;
        }
        i = i + 1;
    }
    assert(s@.subrange(0, m as int) =~= p@);
    true
}

/// The origin with a leading `http://` or `https://` removed.
fn strip_scheme(origin: &Vec<u8>) -> (r: Vec<u8>)
    ensures
        r@ == spec_strip_scheme(origin@),
{
    let mut http: Vec<u8> = Vec::new();
    http.push(104);
    http.push(116);
    http.push(116);
    http.push(112);
    let mut https = Vec::new();
    let mut i: usize = 0;
    while i < http.len()
        invariant
            0 <= i <= http@.len(),
            https@ == http@.subrange(0, i as int),
        decreases http@.len() - i,
    {
        https.push(http[i]);
        assert(https@ =~= http@.subrange(0, i + 1 as int));
        i = i + 1;
    }
    assert(https@ =~= http@);
    https.push(115);
    http.push(58);
    http.push(47);
    http.push(47);
    https.push(58);
    https.push(47);
    https.push(47);
    assert(http@ =~= http_scheme());
    assert(https@ =~= https_scheme());
    let skip: usize = if has_prefix(origin, &http) {
        http.len()
    } else if has_prefix(origin, &https) {
        https.len()
    } else {
        0
    };
    let n = origin.len();
    let mut r: Vec<u8> = Vec::new();
    let mut k: usize = skip;
    while k < n
        invariant
            skip <= k <= n,
            n == origin@.len(),
            r@ == origin@.subrange(skip as int, k as int),
        decreases n - k,
    {
        r.push(origin[k]);
        assert(r@ =~= origin@.subrange(skip as int, k + 1 as int));
        k = k + 1;
    }
    assert(r@ =~= origin@.skip(skip as int));
    assert(r@ =~= spec_strip_scheme(origin@));
    r
}

/// The host a relayed request is addressed to, derived from the resolved
/// origin: the scheme is stripped and everything from the first `/` on is
/// dropped.
pub fn origin_host(origin: &Vec<u8>) -> (r: Vec<u8>)
    ensures
        r@ == spec_host_of_origin(origin@),
{
    let stripped = strip_scheme(origin);
    let (host, _) = split_channel_name(&stripped);
    host
}

/// The single request relayed over one data channel: fixed method and path,
/// host derived from the resolved origin.
#[derive(Debug)]
pub struct TunnelRequest {
    pub method: Vec<u8>,
    pub path: Vec<u8>,
    pub host: Vec<u8>,
}

/// The bytes of `GET`.
pub open spec fn get_method() -> Seq<u8> {
    seq![71u8, 69u8, 84u8]
}

impl TunnelRequest {
    /// The request the adapter issues for a resolved origin: one `GET` of
    /// the root path, addressed to the origin's host.
    pub fn build(origin: &Vec<u8>) -> (r: TunnelRequest)
        ensures
            r.method@ == get_method(),
            r.path@ == seq![SLASH],
            r.host@ == spec_host_of_origin(origin@),
    {
        let mut method: Vec<u8> = Vec::new();
        method.push(71);
        method.push(69);
        method.push(84);
        assert(method@ =~= get_method());
        let mut path: Vec<u8> = Vec::new();
        path.push(SLASH);
        assert(path@ =~= seq![SLASH]);
        TunnelRequest { method, path, host: origin_host(origin) }
    }
}

} // verus!
