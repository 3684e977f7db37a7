//! Choosing the upstream target of one HTTP request: a configured
//! host match first, then the `porty_host`/`porty_port` query
//! parameters, then the route's default target — and stripping those
//! two parameters from the query that goes upstream.

use vstd::prelude::*;

use crate::headers::HeaderMap;
use crate::request::HttpRequest;

verus! {

/// The upstream target resolved for one request.
pub struct DynamicRoute {
    /// Host to connect to.
    pub target_host: Vec<u8>,
    /// Port to connect to.
    pub target_port: u16,
}

impl View for DynamicRoute {
    type V = (Seq<u8>, u16);

    open spec fn view(&self) -> (Seq<u8>, u16) {
        (self.target_host@, self.target_port)
    }
}

impl Clone for DynamicRoute {
    fn clone(&self) -> (r: Self)
        ensures
            r@ == self@,
    {
        DynamicRoute {
            target_host: crate::text::clone_bytes(self.target_host.as_slice()),
            target_port: self.target_port,
        }
    }
}

/// The bytes of `porty_host`.
pub open spec fn porty_host_key() -> Seq<u8> {
    seq![112u8, 111u8, 114u8, 116u8, 121u8, 95u8, 104u8, 111u8, 115u8, 116u8]
}

/// The bytes of `porty_port`.
pub open spec fn porty_port_key() -> Seq<u8> {
    seq![112u8, 111u8, 114u8, 116u8, 121u8, 95u8, 112u8, 111u8, 114u8, 116u8]
}

/// The bytes of `host`.
pub open spec fn host_key() -> Seq<u8> {
    seq![104u8, 111u8, 115u8, 116u8]
}

/// The mapping the query pairs build, in order: a pair with `=` stores
/// the bytes before it under the bytes after it; a pair without `=`
/// stores nothing; a repeated key keeps the last value.
pub open spec fn params_fold(pairs: Seq<Seq<u8>>) -> Seq<(Seq<u8>, Seq<u8>)>
    decreases pairs.len()
{
    if pairs.len() == 0 {
        Seq::empty()
    } else {
        let prev = params_fold(pairs.drop_last());
        let pair = pairs.last();
        match crate::text::first_occ(pair, 61, 0) {
            None => prev,
            Some(p) => crate::headers::upsert(
                prev,
                pair.subrange(0, p),
                pair.subrange(p + 1, pair.len() as int),
            ),
        }
    }
}

/// The `key=value` mapping of a query string, split at `&`.
pub open spec fn query_params(q: Seq<u8>) -> Seq<(Seq<u8>, Seq<u8>)> {
    params_fold(crate::text::split_spec(q, 38))
}

/// The target the query parameters select: present exactly when both
/// `porty_host` and `porty_port` occur and the port parses as a
/// 16-bit unsigned number.
pub open spec fn dynamic_route_of(q: Seq<u8>) -> Option<(Seq<u8>, u16)> {
    let ps = query_params(q);
    match (crate::headers::lookup(ps, porty_host_key()),
           crate::headers::lookup(ps, porty_port_key())) {
        (Some(h), Some(p)) => if crate::text::parses_as_uint(p, 65535) {
            Some((h, crate::text::dec_val(crate::text::uint_digits(p)) as u16))
        } else {
            None
        },
        _ => None,
    }
}

/// Builds the query-parameter mapping of `q`.
fn parse_query_params(q: &[u8]) -> (r: HeaderMap)
    ensures
        r@ == query_params(q@),
{
    let pairs = crate::text::split(q, 38);
    let ghost ps = crate::text::seqs_of(pairs@);
    let mut pm = HeaderMap::new();
    proof {
        assert(ps.take(0) =~= Seq::<Seq<u8>>::empty());
    }
    let mut i: usize = 0;
    while i < pairs.len()
        invariant
            i <= pairs@.len(),
            ps == crate::text::seqs_of(pairs@),
            pm@ == params_fold(ps.take(i as int)),
        decreases pairs@.len() - i,
    {
        let pair = pairs[i].as_slice();
        proof {
            assert(ps[i as int] == pair@);
            assert(ps.take(i + 1).drop_last() =~= ps.take(i as int));
            assert(ps.take(i + 1).last() == ps[i as int]);
        }
        match crate::text::find_from(pair, 61, 0) {
            None => {
                proof {
                    crate::text::lemma_first_occ_spec(pair@, 61, 0);
                }
            },
            Some(p) => {
                let plen = pair.len();
                proof {
                    crate::text::lemma_first_occ_spec(pair@, 61, 0);
                    assert(p < plen);
                }
                let key = crate::text::subrange_to_vec(pair, 0, p);
                let val = crate::text::subrange_to_vec(pair, p + 1, plen);
                pm.insert(key, val);
            },
        }
        i = i + 1;
    }
    proof {
        assert(ps.take(i as int) =~= ps);
    }
    pm
}

/// Reads the `porty_host`/`porty_port` target out of a query string.
pub fn extract_dynamic_route(query: &[u8]) -> (r: Option<DynamicRoute>)
    ensures
        match r {
            Some(d) => dynamic_route_of(query@) == Some(d@),
            None => dynamic_route_of(query@) is None,
        },
{
    let pm = parse_query_params(query);
    let hkey = vec![112u8, 111u8, 114u8, 116u8, 121u8, 95u8, 104u8, 111u8, 115u8, 116u8];
    let pkey = vec![112u8, 111u8, 114u8, 116u8, 121u8, 95u8, 112u8, 111u8, 114u8, 116u8];
    assert(hkey@ =~= porty_host_key());
    assert(pkey@ =~= porty_port_key());
    let host = match pm.get(hkey.as_slice()) {
        None => {
            return None;
        },
        Some(h) => h,
    };
    let port = match pm.get(pkey.as_slice()) {
        None => {
            return None;
        },
        Some(p) => p,
    };
    match crate::text::parse_uint_capped(port.as_slice(), 65535) {
        None => None,
        Some(v) => Some(DynamicRoute {
            target_host: crate::text::clone_bytes(host.as_slice()),
            target_port: v as u16,
        }),
    }
}

/// The bytes of `porty_host=`.
pub open spec fn porty_host_prefix() -> Seq<u8> {
    porty_host_key() + seq![61u8]
}

/// The bytes of `porty_port=`.
pub open spec fn porty_port_prefix() -> Seq<u8> {
    porty_port_key() + seq![61u8]
}

/// Whether a query pair selects the upstream target rather than
/// belonging to the upstream request.
pub open spec fn is_porty_pair(pair: Seq<u8>) -> bool {
    crate::text::starts_with_spec(pair, porty_host_prefix())
        || crate::text::starts_with_spec(pair, porty_port_prefix())
}

/// The query pairs that go upstream, in their original order.
pub open spec fn kept_pairs(ps: Seq<Seq<u8>>) -> Seq<Seq<u8>>
    decreases ps.len()
{
    if ps.len() == 0 {
        Seq::empty()
    } else {
        let prev = kept_pairs(ps.drop_last());
        if is_porty_pair(ps.last()) {
            prev
        } else {
            prev.push(ps.last())
        }
    }
}

/// The pairs joined back with `&`.
pub open spec fn join_amp(ps: Seq<Seq<u8>>) -> Seq<u8>
    decreases ps.len()
{
    if ps.len() == 0 {
        Seq::empty()
    } else if ps.len() == 1 {
        ps[0]
    } else {
        join_amp(ps.drop_last()) + seq![38u8] + ps.last()
    }
}

/// The query string that goes upstream: the original pairs minus the
/// `porty_host=`/`porty_port=` ones, order and encoding untouched.
pub open spec fn clean_query_spec(q: Seq<u8>) -> Seq<u8> {
    join_amp(kept_pairs(crate::text::split_spec(q, 38)))
}

/// Strips the `porty_host=`/`porty_port=` pairs out of a query string,
/// keeping the remaining pairs in their original order and encoding.
pub fn clean_query_string(query: &[u8]) -> (r: Vec<u8>)
    ensures
        r@ == clean_query_spec(query@),
{
    let hpfx = vec![112u8, 111u8, 114u8, 116u8, 121u8, 95u8, 104u8, 111u8, 115u8, 116u8, 61u8];
    let ppfx = vec![112u8, 111u8, 114u8, 116u8, 121u8, 95u8, 112u8, 111u8, 114u8, 116u8, 61u8];
    assert(hpfx@ =~= porty_host_prefix());
    assert(ppfx@ =~= porty_port_prefix());
    let pairs = crate::text::split(query, 38);
    let ghost ps = crate::text::seqs_of(pairs@);
    let mut out: Vec<u8> = Vec::new();
    let mut first: bool = true;
    proof {
        assert(ps.take(0) =~= Seq::<Seq<u8>>::empty());
        assert(out@ =~= join_amp(kept_pairs(ps.take(0))));
    }
    let mut i: usize = 0;
    while i < pairs.len()
        invariant
            i <= pairs@.len(),
            ps == crate::text::seqs_of(pairs@),
            hpfx@ == porty_host_prefix(),
            ppfx@ == porty_port_prefix(),
            out@ == join_amp(kept_pairs(ps.take(i as int))),
            first == (kept_pairs(ps.take(i as int)).len() == 0),
        decreases pairs@.len() - i,
    {
        let pair = pairs[i].as_slice();
        let ghost kept = kept_pairs(ps.take(i as int));
        proof {
            assert(ps[i as int] == pair@);
            assert(ps.take(i + 1).drop_last() =~= ps.take(i as int));
            assert(ps.take(i + 1).last() == ps[i as int]);
        }
        let porty = crate::text::starts_with(pair, hpfx.as_slice())
            || crate::text::starts_with(pair, ppfx.as_slice());
        if !porty {
            if !first {
                out.push(38);
            } else {
                assert(out@ =~= Seq::<u8>::empty());
            }
            crate::text::push_bytes(&mut out, pair);
            proof {
                let now = kept_pairs(ps.take(i + 1));
                assert(now == kept.push(pair@));
                assert(now.drop_last() =~= kept);
                assert(now.last() == pair@);
                assert(out@ =~= join_amp(now));
            }
            first = false;
        }
        i = i + 1;
    }
    proof {
        assert(ps.take(i as int) =~= ps);
    }
    out
}

/// Whether the configured host match applies: a host is configured
/// and the request carried exactly that `Host` header.
pub open spec fn host_matches(cfg_host: Option<Seq<u8>>, host_hdr: Option<Seq<u8>>) -> bool {
    match (cfg_host, host_hdr) {
        (Some(e), Some(h)) => h == e,
        _ => false,
    }
}

/// A default target's `host`/`port` pieces, split at `:`.
pub open spec fn target_split(t: Seq<u8>) -> Seq<Seq<u8>> {
    crate::text::split_spec(t, 58)
}

/// A target port field: its value when it parses as 16-bit unsigned,
/// and 80 otherwise.
pub open spec fn port_or_80(p: Seq<u8>) -> u16 {
    if crate::text::parses_as_uint(p, 65535) {
        crate::text::dec_val(crate::text::uint_digits(p)) as u16
    } else {
        80
    }
}

/// The target used on a host match: the piece before the first `:`,
/// with the following piece as port, or port 80 without one.
pub open spec fn host_match_target(t: Seq<u8>) -> (Seq<u8>, u16) {
    let ts = target_split(t);
    (ts[0], if ts.len() >= 2 {
        port_or_80(ts[1])
    } else {
        80u16
    })
}

/// The fallback target: only a default of exactly `host:port` shape
/// resolves.
pub open spec fn default_target_route(t: Seq<u8>) -> Option<(Seq<u8>, u16)> {
    let ts = target_split(t);
    if ts.len() == 2 {
        Some((ts[0], port_or_80(ts[1])))
    } else {
        None
    }
}

/// The resolution order: the configured default on a host match, else
/// the query-selected target, else the default target when it has
/// `host:port` shape, else nothing.
pub open spec fn resolve_spec(
    cfg_host: Option<Seq<u8>>,
    host_hdr: Option<Seq<u8>>,
    q: Seq<u8>,
    t: Seq<u8>,
) -> Option<(Seq<u8>, u16)> {
    let chosen = if host_matches(cfg_host, host_hdr) {
        Some(host_match_target(t))
    } else {
        dynamic_route_of(q)
    };
    match chosen {
        Some(x) => Some(x),
        None => default_target_route(t),
    }
}

/// A configured host match routes to the configured default target,
/// whatever the query says.
pub proof fn lemma_host_match_overrides(h: Seq<u8>, q: Seq<u8>, t: Seq<u8>)
    ensures
        resolve_spec(Some(h), Some(h), q, t) == Some(host_match_target(t)),
{
}

/// Without a host match, the query parameters decide when they are
/// complete and well-formed, and the default target decides otherwise.
pub proof fn lemma_no_host_match_uses_query(
    cfg_host: Option<Seq<u8>>,
    host_hdr: Option<Seq<u8>>,
    q: Seq<u8>,
    t: Seq<u8>,
)
    requires
        !host_matches(cfg_host, host_hdr),
    ensures
        dynamic_route_of(q) is Some ==> resolve_spec(cfg_host, host_hdr, q, t) == dynamic_route_of(q),
        dynamic_route_of(q) is None ==> resolve_spec(cfg_host, host_hdr, q, t) == default_target_route(t),
{
}

/// Reads a `host[:port]` target, defaulting the port to 80.
fn host_match_route(default_target: &[u8]) -> (r: DynamicRoute)
    ensures
        r@ == host_match_target(default_target@),
{
    let parts = crate::text::split(default_target, 58);
    assert(crate::text::seqs_of(parts@)[0] == parts@[0]@);
    let host = crate::text::clone_bytes(parts[0].as_slice());
    let port: u16 = if parts.len() >= 2 {
        assert(crate::text::seqs_of(parts@)[1] == parts@[1]@);
        match crate::text::parse_uint_capped(parts[1].as_slice(), 65535) {
            Some(v) => v as u16,
            None => 80,
        }
    } else {
        80
    };
    DynamicRoute { target_host: host, target_port: port }
}

/// Resolves the upstream target for one parsed request.
///
/// Order, first match wins: a configured host equal to the request's
/// `Host` header routes to the configured default; else complete and
/// well-formed `porty_host`/`porty_port` query parameters route
/// there; else a default of `host:port` shape routes there; else the
/// request is unroutable and is answered with a synthesized 400.
pub fn resolve_route(
    req: &HttpRequest,
    cfg_host: Option<&Vec<u8>>,
    default_target: &[u8],
) -> (r: Option<DynamicRoute>)
    ensures
        ({
            let spec_cfg = match cfg_host {
                None => None,
                Some(e) => Some(e@),
            };
            let spec_hdr = crate::headers::lookup(req.headers@, host_key());
            match r {
                Some(d) => resolve_spec(spec_cfg, spec_hdr, req.query@, default_target@)
                    == Some(d@),
                None => resolve_spec(spec_cfg, spec_hdr, req.query@, default_target@) is None,
            }
        }),
{
    let hostkey = vec![104u8, 111u8, 115u8, 116u8];
    assert(hostkey@ =~= host_key());
    let matched: bool = match cfg_host {
        Some(e) => match req.headers.get(hostkey.as_slice()) {
            Some(h) => crate::text::bytes_eq(h.as_slice(), e.as_slice()),
            None => false,
        },
        None => false,
    };
    if matched {
        return Some(host_match_route(default_target));
    }
    match extract_dynamic_route(req.query.as_slice()) {
        Some(d) => Some(d),
        None => {
            let parts = crate::text::split(default_target, 58);
            if parts.len() == 2 {
                assert(crate::text::seqs_of(parts@)[0] == parts@[0]@);
                assert(crate::text::seqs_of(parts@)[1] == parts@[1]@);
                let host = crate::text::clone_bytes(parts[0].as_slice());
                let port: u16 = match crate::text::parse_uint_capped(parts[1].as_slice(), 65535) {
                    Some(v) => v as u16,
                    None => 80,
                };
                Some(DynamicRoute { target_host: host, target_port: port })
            } else {
                None
            }
        },
    }
}

} // verus!
