//! Forwarding one HTTP request upstream: building the wire request
//! with the query cleaned and the `Host` header rewritten, tracking
//! the streamed response, the retry/backoff schedule, and the
//! synthesized error responses.

use vstd::prelude::*;

use crate::request::HttpRequest;

verus! {

/// What streaming one upstream response yielded: its first line and
/// how many bytes were moved to the client.
pub struct ResponseInfo {
    /// The response's first line, trimmed, or `Unknown` without one.
    pub status: Vec<u8>,
    /// Every response byte moved to the client.
    pub body_size: usize,
}

/// The bytes of `: `.
pub open spec fn colon_space() -> Seq<u8> {
    seq![58u8, 32u8]
}

/// The bytes of `\r\n`.
pub open spec fn crlf() -> Seq<u8> {
    seq![13u8, 10u8]
}

/// The bytes of ` HTTP/1.1\r\n`.
pub open spec fn http11_line_suffix() -> Seq<u8> {
    seq![32u8, 72u8, 84u8, 84u8, 80u8, 47u8, 49u8, 46u8, 49u8, 13u8, 10u8]
}

/// One serialized header line: `key: value\r\n`.
pub open spec fn ser_header(p: (Seq<u8>, Seq<u8>)) -> Seq<u8> {
    p.0 + colon_space() + p.1 + crlf()
}

/// The serialized header lines, in stored order.
pub open spec fn ser_headers(ps: Seq<(Seq<u8>, Seq<u8>)>) -> Seq<u8>
    decreases ps.len()
{
    if ps.len() == 0 {
        Seq::empty()
    } else {
        ser_headers(ps.drop_last()) + ser_header(ps.last())
    }
}

/// The request target sent upstream: the path, plus `?` and the
/// cleaned query when that is non-empty.
pub open spec fn request_url(path: Seq<u8>, cleaned: Seq<u8>) -> Seq<u8> {
    if cleaned.len() == 0 {
        path
    } else {
        path + seq![63u8] + cleaned
    }
}

/// The whole wire request sent upstream: the request line with the
/// cleaned target, the headers with `host` rewritten to the target
/// host, a blank line, and the body.
pub open spec fn upstream_wire(m: crate::request::ReqModel, target_host: Seq<u8>) -> Seq<u8> {
    m.method + seq![32u8]
        + request_url(m.path, crate::resolve::clean_query_spec(m.query))
        + http11_line_suffix()
        + ser_headers(crate::headers::upsert(m.headers, crate::resolve::host_key(), target_host))
        + crlf()
        + m.body
}

/// Builds the bytes sent upstream for one request: the query loses its
/// `porty_host`/`porty_port` pairs and the `host` header becomes the
/// target host; everything else goes through unchanged.
pub fn build_upstream_request(req: &HttpRequest, target_host: &[u8]) -> (r: Vec<u8>)
    ensures
        r@ == upstream_wire(req@, target_host@),
{
    let mut hs = req.headers.clone();
    let hkey = vec![104u8, 111u8, 115u8, 116u8];
    assert(hkey@ =~= crate::resolve::host_key());
    hs.insert(hkey, crate::text::clone_bytes(target_host));
    let ghost hsv = hs@;

    let mut out: Vec<u8> = Vec::new();
    crate::text::push_bytes(&mut out, req.method.as_slice());
    out.push(32);
    crate::text::push_bytes(&mut out, req.path.as_slice());
    let cleaned = crate::resolve::clean_query_string(req.query.as_slice());
    if cleaned.len() > 0 {
        out.push(63);
        crate::text::push_bytes(&mut out, cleaned.as_slice());
    }
    let tail = vec![32u8, 72u8, 84u8, 84u8, 80u8, 47u8, 49u8, 46u8, 49u8, 13u8, 10u8];
    assert(tail@ =~= http11_line_suffix());
    crate::text::push_bytes(&mut out, tail.as_slice());
    let ghost line = req.method@ + seq![32u8]
        + request_url(req.path@, crate::resolve::clean_query_spec(req.query@))
        + http11_line_suffix();
    assert(out@ =~= line);

    let n = hs.count();
    let mut i: usize = 0;
    proof {
        assert(hsv.take(0) =~= Seq::<(Seq<u8>, Seq<u8>)>::empty());
    }
    while i < n
        invariant
            i <= n,
            n == hsv.len(),
            hsv == hs@,
            out@ == line + ser_headers(hsv.take(i as int)),
        decreases n - i,
    {
        proof {
            assert(hsv.take(i + 1).drop_last() =~= hsv.take(i as int));
            assert(hsv.take(i + 1).last() == hsv[i as int]);
        }
        crate::text::push_bytes(&mut out, hs.key_at(i).as_slice());
        out.push(58);
        out.push(32);
        crate::text::push_bytes(&mut out, hs.val_at(i).as_slice());
        out.push(13);
        out.push(10);
        i = i + 1;
        assert(out@ =~= line + ser_headers(hsv.take(i as int)));
    }
    proof {
        assert(hsv.take(n as int) =~= hsv);
    }
    out.push(13);
    out.push(10);
    crate::text::push_bytes(&mut out, req.body.as_slice());
    assert(out@ =~= upstream_wire(req@, target_host@));
    out
}

/// The bytes of `Unknown`.
pub open spec fn unknown_status() -> Seq<u8> {
    seq![85u8, 110u8, 107u8, 110u8, 111u8, 119u8, 110u8]
}

/// The status reported for a streamed response: its first line
/// (before the first `\n`), trimmed — or `Unknown` when no line
/// boundary was seen or the line trims to nothing.
pub open spec fn status_of(s: Seq<u8>) -> Seq<u8> {
    match crate::text::first_occ(s, 10, 0) {
        None => unknown_status(),
        Some(e) => {
            let t = crate::text::trim_spec(s.take(e));
            if t.len() == 0 {
                unknown_status()
            } else {
                t
            }
        },
    }
}

/// Watches the response bytes streamed back to the client, tallying
/// them and extracting the first response line best-effort.
pub struct ResponseTracker {
    head: Vec<u8>,
    line: Option<Vec<u8>>,
    total: usize,
    seen: Ghost<Seq<u8>>,
}

impl ResponseTracker {
    /// Every response byte fed so far.
    pub closed spec fn seen(self) -> Seq<u8> {
        self.seen@
    }

    /// The tracker's bookkeeping matches the bytes fed so far.
    pub closed spec fn wf(self) -> bool {
        &&& self.total as nat == self.seen@.len()
        &&& match self.line {
            None => {
                &&& crate::text::first_occ(self.seen@, 10, 0) is None
                &&& self.head@ == self.seen@
            },
            Some(l) => match crate::text::first_occ(self.seen@, 10, 0) {
                None => false,
                Some(e) => l@ == crate::text::trim_spec(self.seen@.take(e)),
            },
        }
    }

    /// A tracker that has seen nothing.
    pub fn new() -> (r: ResponseTracker)
        ensures
            r.wf(),
            r.seen() == Seq::<u8>::empty(),
    {
        let r = ResponseTracker {
            head: Vec::new(),
            line: None,
            total: 0,
            seen: Ghost(Seq::empty()),
        };
        proof {
            crate::text::lemma_first_occ_none(r.seen@, 10, 0);
        }
        r
    }

    /// Accounts one chunk of response bytes that was forwarded.
    pub fn on_chunk(&mut self, chunk: &[u8])
        requires
            old(self).wf(),
            old(self).seen().len() + chunk@.len() <= usize::MAX,
        ensures
            final(self).wf(),
            final(self).seen() == old(self).seen() + chunk@,
    {
        let ghost prev = self.seen@;
        proof {
            self.seen@ = prev + chunk@;
        }
        self.total = self.total + chunk.len();
        match &self.line {
            None => {
                match crate::text::find_from(chunk, 10, 0) {
                    None => {
                        proof {
                            crate::text::lemma_first_occ_spec(prev, 10, 0);
                            crate::text::lemma_first_occ_spec(chunk@, 10, 0);
                            assert forall|k: int| 0 <= k < self.seen@.len()
                                implies self.seen@[k] != 10 by {
                                if k < prev.len() {
                                    assert(self.seen@[k] == prev[k]);
                                } else {
                                    assert(self.seen@[k] == chunk@[k - prev.len()]);
                                }
                            }
                            crate::text::lemma_first_occ_none(self.seen@, 10, 0);
                        }
                        crate::text::push_bytes(&mut self.head, chunk);
                        assert(self.head@ =~= self.seen@);
                    },
                    Some(e) => {
                        proof {
                            crate::text::lemma_first_occ_spec(prev, 10, 0);
                            crate::text::lemma_first_occ_spec(chunk@, 10, 0);
                            assert(self.seen@[prev.len() + e] == chunk@[e as int]);
                            assert forall|k: int| 0 <= k < prev.len() + e
                                implies self.seen@[k] != 10 by {
                                if k < prev.len() {
                                    assert(self.seen@[k] == prev[k]);
                                } else {
                                    assert(self.seen@[k] == chunk@[k - prev.len()]);
                                }
                            }
                            crate::text::lemma_first_occ_exists(
                                self.seen@, 10, 0, prev.len() + e);
                        }
                        let pre = crate::text::subrange_to_vec(chunk, 0, e);
                        let mut whole = crate::text::clone_bytes(self.head.as_slice());
                        crate::text::push_bytes(&mut whole, pre.as_slice());
                        let l = crate::text::trim(whole.as_slice());
                        proof {
                            assert(whole@ =~= self.seen@.take(prev.len() + e));
                        }
                        self.line = Some(l);
                    },
                }
            },
            Some(_) => {
                proof {
                    let e = match crate::text::first_occ(prev, 10, 0) {
                        Some(e) => e,
                        None => 0,
                    };
                    crate::text::lemma_first_occ_spec(prev, 10, 0);
                    crate::text::lemma_first_occ_exists(self.seen@, 10, 0, e);
                    assert(self.seen@.take(e) =~= prev.take(e));
                }
            },
        }
    }

    /// The status line and byte tally once the response has ended.
    pub fn finish(&self) -> (r: ResponseInfo)
        requires
            self.wf(),
        ensures
            r.status@ == status_of(self.seen()),
            r.body_size as nat == self.seen().len(),
    {
        let status = match &self.line {
            None => {
                let u = vec![85u8, 110u8, 107u8, 110u8, 111u8, 119u8, 110u8];
                assert(u@ =~= unknown_status());
                u
            },
            Some(l) => {
                if l.len() == 0 {
                    let u = vec![85u8, 110u8, 107u8, 110u8, 111u8, 119u8, 110u8];
                    assert(u@ =~= unknown_status());
                    u
                } else {
                    crate::text::clone_bytes(l.as_slice())
                }
            },
        };
        ResponseInfo { status, body_size: self.total }
    }
}

/// Two to the `n`-th power.
pub open spec fn pow2(n: nat) -> nat
    decreases n
{
    if n == 0 {
        1
    } else {
        2 * pow2((n - 1) as nat)
    }
}

/// The pause before attempt `a`: nothing before the first attempt,
/// then 100·2^(a-1) milliseconds, doubling without cap.
pub open spec fn backoff_ms(a: nat) -> nat {
    if a == 0 {
        0
    } else {
        100 * pow2((a - 1) as nat)
    }
}

proof fn lemma_shift_is_pow2(n: u32)
    requires
        n <= 57,
    ensures
        (1u64 << n) as nat == pow2(n as nat),
    decreases n,
{
    if n == 0 {
        assert(1u64 << 0u32 == 1u64) by (bit_vector);
    } else {
        lemma_shift_is_pow2((n - 1) as u32);
        assert(1u64 << n == 2 * (1u64 << ((n - 1) as u32))) by (bit_vector)
            requires
                1u32 <= n <= 57u32,
            ;
    }
}

proof fn lemma_pow2_mono(a: nat, b: nat)
    requires
        a <= b,
    ensures
        pow2(a) <= pow2(b),
    decreases b,
{
    if a < b {
        lemma_pow2_mono(a, (b - 1) as nat);
    }
}

/// The pause before attempt `a`, in milliseconds.
pub fn backoff_delay_ms(a: u32) -> (r: u64)
    requires
        1 <= a <= 58,
    ensures
        r as nat == backoff_ms(a as nat),
{
    let sh = a - 1;
    proof {
        lemma_shift_is_pow2(sh);
        lemma_shift_is_pow2(57);
        lemma_pow2_mono(sh as nat, 57);
        assert(1u64 << 57u32 == 0x200000000000000u64) by (bit_vector);
    }
    let p: u64 = 1u64 << sh;
    100 * p
}

/// Why one upstream attempt failed.
#[derive(Clone, Copy, Debug, PartialEq, Eq, Structural)]
pub enum UpstreamFailure {
    /// The fresh connection to the target could not be opened.
    ConnectError,
    /// The exchange with the target broke off.
    IoError,
    /// The attempt exceeded its hard timeout.
    Timeout,
}

/// What to do after a failed attempt.
#[derive(Clone, Copy, Debug, PartialEq, Eq, Structural)]
pub enum RetryDecision {
    /// Pause for the next backoff delay, then try again.
    Retry,
    /// All attempts are spent: answer 502 and report the last failure.
    GiveUp,
}

/// The attempt counter after `k` failures when every attempt fails:
/// it grows by one per failure until it reaches `max`.
pub open spec fn failures_after(max: nat, k: nat) -> nat
    decreases k
{
    if k == 0 {
        0
    } else if failures_after(max, (k - 1) as nat) < max {
        failures_after(max, (k - 1) as nat) + 1
    } else {
        failures_after(max, (k - 1) as nat)
    }
}

/// The decision the `k`-th failure draws (`k` counted from 1).
pub open spec fn decision_on_failure(max: nat, k: nat) -> RetryDecision
    recommends
        k >= 1,
{
    if failures_after(max, (k - 1) as nat) < max {
        RetryDecision::Retry
    } else {
        RetryDecision::GiveUp
    }
}

/// Against an upstream where every attempt fails, attempts
/// `0..=max_retries` all run — `max_retries + 1` of them: the first
/// `max_retries` failures each draw a retry, the next failure gives
/// up, and the pause before attempt `a` is 100·2^(a-1) ms after no
/// pause before attempt 0.
pub proof fn lemma_failing_run_schedule(max: nat, k: nat)
    ensures
        k <= max ==> failures_after(max, k) == k,
        k > max ==> failures_after(max, k) == max,
        1 <= k <= max ==> decision_on_failure(max, k) == RetryDecision::Retry,
        k > max ==> decision_on_failure(max, k) == RetryDecision::GiveUp,
        backoff_ms(0) == 0,
        k >= 1 ==> backoff_ms(k) == 100 * pow2((k - 1) as nat),
    decreases k,
{
    if k > 0 {
        lemma_failing_run_schedule(max, (k - 1) as nat);
    }
}

/// One request's retry bookkeeping: which attempt is next and how
/// many are allowed.
pub struct RetrySession {
    attempt: u32,
    max_retries: u32,
    last: Option<UpstreamFailure>,
}

impl RetrySession {
    /// The index of the attempt about to run (failures so far).
    pub closed spec fn attempt_no(self) -> nat {
        self.attempt as nat
    }

    /// How many retries beyond the first attempt are allowed.
    pub closed spec fn retries_allowed(self) -> nat {
        self.max_retries as nat
    }

    /// The most recent failure, if any.
    pub closed spec fn last_failure(self) -> Option<UpstreamFailure> {
        self.last
    }

    /// The attempt index never passes the retry allowance, and the
    /// allowance is small enough that every pause fits a `u64`.
    pub closed spec fn wf(self) -> bool {
        self.attempt <= self.max_retries && self.max_retries <= 58
    }

    /// A session about to run attempt 0.
    ///
    /// The allowance is capped so that `100·2^(max_retries-1)`
    /// milliseconds still fits the pause computation.
    pub fn new(max_retries: u32) -> (r: RetrySession)
        requires
            max_retries <= 58,
        ensures
            r.wf(),
            r.attempt_no() == 0,
            r.retries_allowed() == max_retries as nat,
            r.last_failure() is None,
    {
        RetrySession { attempt: 0, max_retries, last: None }
    }

    /// The index of the attempt about to run.
    pub fn attempt_index(&self) -> (r: u32)
        ensures
            r as nat == self.attempt_no(),
    {
        self.attempt
    }

    /// The pause to sleep before the attempt about to run.
    pub fn current_delay_ms(&self) -> (r: u64)
        requires
            self.wf(),
        ensures
            r as nat == backoff_ms(self.attempt_no()),
    {
        if self.attempt == 0 {
            0
        } else {
            backoff_delay_ms(self.attempt)
        }
    }

    /// Draws the decision for one failed attempt: retry while fewer
    /// than `max_retries` failures came before, else give up.
    pub fn record_failure(&mut self, f: UpstreamFailure) -> (r: RetryDecision)
        requires
            old(self).wf(),
        ensures
            final(self).wf(),
            final(self).retries_allowed() == old(self).retries_allowed(),
            final(self).last_failure() == Some(f),
            r == (if old(self).attempt_no() < old(self).retries_allowed() {
                RetryDecision::Retry
            } else {
                RetryDecision::GiveUp
            }),
            r is Retry ==> final(self).attempt_no() == old(self).attempt_no() + 1,
            r is GiveUp ==> final(self).attempt_no() == old(self).attempt_no(),
    {
        self.last = Some(f);
        if self.attempt < self.max_retries {
            self.attempt = self.attempt + 1;
            RetryDecision::Retry
        } else {
            RetryDecision::GiveUp
        }
    }
}

/// The bytes of `HTTP/1.1 `.
pub open spec fn http11_status_prefix() -> Seq<u8> {
    seq![72u8, 84u8, 84u8, 80u8, 47u8, 49u8, 46u8, 49u8, 32u8]
}

/// The bytes of `\r\nContent-Type: text/plain\r\nContent-Length: `.
pub open spec fn ct_cl_headers() -> Seq<u8> {
    seq![13u8, 10u8, 67u8, 111u8, 110u8, 116u8, 101u8, 110u8, 116u8, 45u8, 84u8,
        121u8, 112u8, 101u8, 58u8, 32u8, 116u8, 101u8, 120u8, 116u8, 47u8, 112u8,
        108u8, 97u8, 105u8, 110u8, 13u8, 10u8, 67u8, 111u8, 110u8, 116u8, 101u8,
        110u8, 116u8, 45u8, 76u8, 101u8, 110u8, 103u8, 116u8, 104u8, 58u8, 32u8]
}

/// The bytes of `\r\nConnection: close\r\n\r\n`.
pub open spec fn conn_close_tail() -> Seq<u8> {
    seq![13u8, 10u8, 67u8, 111u8, 110u8, 110u8, 101u8, 99u8, 116u8, 105u8, 111u8,
        110u8, 58u8, 32u8, 99u8, 108u8, 111u8, 115u8, 101u8, 13u8, 10u8, 13u8, 10u8]
}

/// The reason phrase sent with a synthesized status code.
pub open spec fn status_text(code: u16) -> Seq<u8> {
    if code == 400 {
        seq![66u8, 97u8, 100u8, 32u8, 82u8, 101u8, 113u8, 117u8, 101u8, 115u8, 116u8]
    } else if code == 404 {
        seq![78u8, 111u8, 116u8, 32u8, 70u8, 111u8, 117u8, 110u8, 100u8]
    } else if code == 500 {
        seq![73u8, 110u8, 116u8, 101u8, 114u8, 110u8, 97u8, 108u8, 32u8, 83u8, 101u8,
            114u8, 118u8, 101u8, 114u8, 32u8, 69u8, 114u8, 114u8, 111u8, 114u8]
    } else if code == 502 {
        seq![66u8, 97u8, 100u8, 32u8, 71u8, 97u8, 116u8, 101u8, 119u8, 97u8, 121u8]
    } else if code == 503 {
        seq![83u8, 101u8, 114u8, 118u8, 105u8, 99u8, 101u8, 32u8, 85u8, 110u8, 97u8,
            118u8, 97u8, 105u8, 108u8, 97u8, 98u8, 108u8, 101u8]
    } else if code == 504 {
        seq![71u8, 97u8, 116u8, 101u8, 119u8, 97u8, 121u8, 32u8, 84u8, 105u8, 109u8,
            101u8, 111u8, 117u8, 116u8]
    } else {
        seq![69u8, 114u8, 114u8, 111u8, 114u8]
    }
}

/// The body of a synthesized response: `code message`.
pub open spec fn error_body(code: u16, msg: Seq<u8>) -> Seq<u8> {
    crate::text::dec_rep(code as nat) + seq![32u8] + msg
}

/// A whole synthesized response: status line, `Content-Type`,
/// exact `Content-Length`, `Connection: close`, and the body.
pub open spec fn error_response(code: u16, msg: Seq<u8>) -> Seq<u8> {
    http11_status_prefix() + crate::text::dec_rep(code as nat) + seq![32u8]
        + status_text(code)
        + ct_cl_headers() + crate::text::dec_rep(error_body(code, msg).len())
        + conn_close_tail() + error_body(code, msg)
}

/// The reason phrase for `code`.
fn status_text_bytes(code: u16) -> (r: Vec<u8>)
    ensures
        r@ == status_text(code),
{
    let r: Vec<u8> = if code == 400 {
        vec![66u8, 97u8, 100u8, 32u8, 82u8, 101u8, 113u8, 117u8, 101u8, 115u8, 116u8]
    } else if code == 404 {
        vec![78u8, 111u8, 116u8, 32u8, 70u8, 111u8, 117u8, 110u8, 100u8]
    } else if code == 500 {
        vec![73u8, 110u8, 116u8, 101u8, 114u8, 110u8, 97u8, 108u8, 32u8, 83u8, 101u8,
            114u8, 118u8, 101u8, 114u8, 32u8, 69u8, 114u8, 114u8, 111u8, 114u8]
    } else if code == 502 {
        vec![66u8, 97u8, 100u8, 32u8, 71u8, 97u8, 116u8, 101u8, 119u8, 97u8, 121u8]
    } else if code == 503 {
        vec![83u8, 101u8, 114u8, 118u8, 105u8, 99u8, 101u8, 32u8, 85u8, 110u8, 97u8,
            118u8, 97u8, 105u8, 108u8, 97u8, 98u8, 108u8, 101u8]
    } else if code == 504 {
        vec![71u8, 97u8, 116u8, 101u8, 119u8, 97u8, 121u8, 32u8, 84u8, 105u8, 109u8,
            101u8, 111u8, 117u8, 116u8]
    } else {
        vec![69u8, 114u8, 114u8, 111u8, 114u8]
    };
    assert(r@ =~= status_text(code));
    r
}

/// Builds the synthesized wire response for `code` with `msg` as the
/// body text, exactly as it goes to the client.
pub fn synth_error_response(code: u16, msg: &[u8]) -> (r: Vec<u8>)
    ensures
        r@ == error_response(code, msg@),
{
    let mut body = crate::text::u64_to_dec(code as u64);
    body.push(32);
    crate::text::push_bytes(&mut body, msg);
    assert(body@ =~= error_body(code, msg@));

    let mut out: Vec<u8> = Vec::new();
    let pre = vec![72u8, 84u8, 84u8, 80u8, 47u8, 49u8, 46u8, 49u8, 32u8];
    assert(pre@ =~= http11_status_prefix());
    crate::text::push_bytes(&mut out, pre.as_slice());
    let code_dec = crate::text::u64_to_dec(code as u64);
    crate::text::push_bytes(&mut out, code_dec.as_slice());
    out.push(32);
    let text = status_text_bytes(code);
    crate::text::push_bytes(&mut out, text.as_slice());
    let ct = vec![13u8, 10u8, 67u8, 111u8, 110u8, 116u8, 101u8, 110u8, 116u8, 45u8, 84u8,
        121u8, 112u8, 101u8, 58u8, 32u8, 116u8, 101u8, 120u8, 116u8, 47u8, 112u8,
        108u8, 97u8, 105u8, 110u8, 13u8, 10u8, 67u8, 111u8, 110u8, 116u8, 101u8,
        110u8, 116u8, 45u8, 76u8, 101u8, 110u8, 103u8, 116u8, 104u8, 58u8, 32u8];
    assert(ct@ =~= ct_cl_headers());
    crate::text::push_bytes(&mut out, ct.as_slice());
    let len_dec = crate::text::u64_to_dec(body.len() as u64);
    crate::text::push_bytes(&mut out, len_dec.as_slice());
    let tail = vec![13u8, 10u8, 67u8, 111u8, 110u8, 110u8, 101u8, 99u8, 116u8, 105u8, 111u8,
        110u8, 58u8, 32u8, 99u8, 108u8, 111u8, 115u8, 101u8, 13u8, 10u8, 13u8, 10u8];
    assert(tail@ =~= conn_close_tail());
    crate::text::push_bytes(&mut out, tail.as_slice());
    crate::text::push_bytes(&mut out, body.as_slice());
    assert(out@ =~= error_response(code, msg@));
    out
}

/// The bytes of `Missing porty_host and porty_port parameters`.
pub open spec fn missing_params_msg() -> Seq<u8> {
    seq![77u8, 105u8, 115u8, 115u8, 105u8, 110u8, 103u8, 32u8, 112u8, 111u8, 114u8,
        116u8, 121u8, 95u8, 104u8, 111u8, 115u8, 116u8, 32u8, 97u8, 110u8, 100u8,
        32u8, 112u8, 111u8, 114u8, 116u8, 121u8, 95u8, 112u8, 111u8, 114u8, 116u8,
        32u8, 112u8, 97u8, 114u8, 97u8, 109u8, 101u8, 116u8, 101u8, 114u8, 115u8]
}

/// The bytes of `Backend connection failed after retries`.
pub open spec fn backend_failed_msg() -> Seq<u8> {
    seq![66u8, 97u8, 99u8, 107u8, 101u8, 110u8, 100u8, 32u8, 99u8, 111u8, 110u8,
        110u8, 101u8, 99u8, 116u8, 105u8, 111u8, 110u8, 32u8, 102u8, 97u8, 105u8,
        108u8, 101u8, 100u8, 32u8, 97u8, 102u8, 116u8, 101u8, 114u8, 32u8, 114u8,
        101u8, 116u8, 114u8, 105u8, 101u8, 115u8]
}

/// The 400 answer for an unroutable request.
pub fn missing_params_response() -> (r: Vec<u8>)
    ensures
        r@ == error_response(400, missing_params_msg()),
{
    let msg = vec![77u8, 105u8, 115u8, 115u8, 105u8, 110u8, 103u8, 32u8, 112u8, 111u8, 114u8,
        116u8, 121u8, 95u8, 104u8, 111u8, 115u8, 116u8, 32u8, 97u8, 110u8, 100u8,
        32u8, 112u8, 111u8, 114u8, 116u8, 121u8, 95u8, 112u8, 111u8, 114u8, 116u8,
        32u8, 112u8, 97u8, 114u8, 97u8, 109u8, 101u8, 116u8, 101u8, 114u8, 115u8];
    assert(msg@ =~= missing_params_msg());
    synth_error_response(400, msg.as_slice())
}

/// The 502 answer sent when every attempt failed.
pub fn bad_gateway_response() -> (r: Vec<u8>)
    ensures
        r@ == error_response(502, backend_failed_msg()),
{
    let msg = vec![66u8, 97u8, 99u8, 107u8, 101u8, 110u8, 100u8, 32u8, 99u8, 111u8, 110u8,
        110u8, 101u8, 99u8, 116u8, 105u8, 111u8, 110u8, 32u8, 102u8, 97u8, 105u8,
        108u8, 101u8, 100u8, 32u8, 97u8, 102u8, 116u8, 101u8, 114u8, 32u8, 114u8,
        101u8, 116u8, 114u8, 105u8, 101u8, 115u8];
    assert(msg@ =~= backend_failed_msg());
    synth_error_response(502, msg.as_slice())
}

} // verus!
