//! Parsing one HTTP request from buffered bytes: the request line,
//! the header lines up to the blank terminator, and a body of exactly
//! the length the `content-length` header announces.

use vstd::prelude::*;

use crate::headers::HeaderMap;

verus! {

/// Why a buffered request was rejected.
#[derive(Clone, Copy, Debug, PartialEq, Eq, Structural)]
pub enum ParseError {
    /// The head held no line at all before the blank terminator.
    EmptyRequest,
    /// The request line held fewer than two tokens.
    BadRequestLine,
    /// A third request-line token did not begin with `HTTP/`.
    BadVersion,
    /// A header line's key was empty once trimmed.
    EmptyHeaderName,
    /// A non-blank header line held no colon.
    BadHeaderLine,
}

/// The bytes of `HTTP/`.
pub open spec fn http_slash() -> Seq<u8> {
    seq![72u8, 84u8, 84u8, 80u8, 47u8]
}

/// The request-line tokens of `line`, split on whitespace.
pub open spec fn req_tokens(line: Seq<u8>) -> Seq<Seq<u8>> {
    crate::text::tokens_spec(line)
}

/// Why a request line is rejected, if it is.
pub open spec fn req_line_err(line: Seq<u8>) -> Option<ParseError> {
    let ts = req_tokens(line);
    if ts.len() < 2 {
        Some(ParseError::BadRequestLine)
    } else if ts.len() >= 3 && !crate::text::starts_with_spec(ts[2], http_slash()) {
        Some(ParseError::BadVersion)
    } else {
        None
    }
}

/// The path part of a request target: everything before the first `?`,
/// or the whole target.
pub open spec fn path_of(target: Seq<u8>) -> Seq<u8> {
    match crate::text::first_occ(target, 63, 0) {
        None => target,
        Some(e) => target.subrange(0, e),
    }
}

/// The query part of a request target: everything after the first `?`,
/// or empty.
pub open spec fn query_of(target: Seq<u8>) -> Seq<u8> {
    match crate::text::first_occ(target, 63, 0) {
        None => Seq::empty(),
        Some(e) => target.subrange(e + 1, target.len() as int),
    }
}

/// Splits a request line into method, path and query.
///
/// The line must hold at least two whitespace-separated tokens; a third
/// token, if present, must begin with `HTTP/`. The second token is cut
/// at its first `?`: what precedes is the path, what follows is the
/// query, and a target without `?` has an empty query.
pub fn parse_request_line(line: &[u8]) -> (r: Result<(Vec<u8>, Vec<u8>, Vec<u8>), ParseError>)
    ensures
        match r {
            Ok(t) => {
                &&& req_line_err(line@) is None
                &&& t.0@ == req_tokens(line@)[0]
                &&& t.1@ == path_of(req_tokens(line@)[1])
                &&& t.2@ == query_of(req_tokens(line@)[1])
            },
            Err(e) => req_line_err(line@) == Some(e),
        },
{
    let toks = crate::text::tokenize(line);
    if toks.len() < 2 {
        return Err(ParseError::BadRequestLine);
    }
    if toks.len() >= 3 {
        let http = vec![72u8, 84u8, 84u8, 80u8, 47u8];
        assert(http@ =~= http_slash());
        if !crate::text::starts_with(toks[2].as_slice(), http.as_slice()) {
            assert(crate::text::seqs_of(toks@)[2] == toks@[2]@);
            return Err(ParseError::BadVersion);
        }
    }
    let method = crate::text::clone_bytes(toks[0].as_slice());
    let target = toks[1].as_slice();
    let (path, query) = match crate::text::find_from(target, 63, 0) {
        None => {
            let p = crate::text::clone_bytes(target);
            let q: Vec<u8> = Vec::new();
            assert(q@ =~= Seq::<u8>::empty());
            (p, q)
        },
        Some(e) => {
            let tlen = target.len();
            proof {
                crate::text::lemma_first_occ_spec(target@, 63, 0);
                assert(e < tlen);
            }
            let p = crate::text::subrange_to_vec(target, 0, e);
            let q = crate::text::subrange_to_vec(target, e + 1, tlen);
            (p, q)
        },
    };
    assert(crate::text::seqs_of(toks@)[0] == toks@[0]@);
    assert(crate::text::seqs_of(toks@)[1] == toks@[1]@);
    Ok((method, path, query))
}

/// The key of a header line whose first colon is at `c`: the bytes
/// before the colon, trimmed and lower-cased.
pub open spec fn header_key(line: Seq<u8>, c: int) -> Seq<u8> {
    crate::text::lower_spec(crate::text::trim_spec(line.subrange(0, c)))
}

/// The value of a header line whose first colon is at `c`: the bytes
/// after the colon, trimmed.
pub open spec fn header_val(line: Seq<u8>, c: int) -> Seq<u8> {
    crate::text::trim_spec(line.subrange(c + 1, line.len() as int))
}

/// Why one header line is rejected, if it is. A line without a colon
/// passes only when it is blank once trimmed.
pub open spec fn header_err(line: Seq<u8>) -> Option<ParseError> {
    match crate::text::first_occ(line, 58, 0) {
        Some(c) => if header_key(line, c).len() == 0 {
            Some(ParseError::EmptyHeaderName)
        } else {
            None
        },
        None => if crate::text::trim_spec(line).len() == 0 {
            None
        } else {
            Some(ParseError::BadHeaderLine)
        },
    }
}

/// The first rejection among the header lines, if any.
pub open spec fn headers_err(lines: Seq<Seq<u8>>) -> Option<ParseError>
    decreases lines.len()
{
    if lines.len() == 0 {
        None
    } else if header_err(lines.first()) is Some {
        header_err(lines.first())
    } else {
        headers_err(lines.drop_first())
    }
}

/// The header mapping the lines build, in order: each keyed line
/// stores its value under its key, so a repeated key keeps only the
/// last value; blank and keyless lines store nothing.
pub open spec fn headers_fold(lines: Seq<Seq<u8>>) -> Seq<(Seq<u8>, Seq<u8>)>
    decreases lines.len()
{
    if lines.len() == 0 {
        Seq::empty()
    } else {
        let prev = headers_fold(lines.drop_last());
        let l = lines.last();
        match crate::text::first_occ(l, 58, 0) {
            Some(c) => if header_key(l, c).len() > 0 {
                crate::headers::upsert(prev, header_key(l, c), header_val(l, c))
            } else {
                prev
            },
            None => prev,
        }
    }
}

/// Builds the header mapping from the stored lines after the request
/// line, in order, rejecting the first bad line.
pub fn build_headers(lines: &Vec<Vec<u8>>, start: usize) -> (r: Result<HeaderMap, ParseError>)
    requires
        start <= lines@.len(),
    ensures
        match r {
            Ok(hm) => {
                &&& headers_err(crate::text::seqs_of(lines@).skip(start as int)) is None
                &&& hm@ == headers_fold(crate::text::seqs_of(lines@).skip(start as int))
            },
            Err(e) => headers_err(crate::text::seqs_of(lines@).skip(start as int)) == Some(e),
        },
{
    let ghost suf = crate::text::seqs_of(lines@).skip(start as int);
    proof {
        assert(suf.skip(0) =~= suf);
        assert(suf.take(0) =~= Seq::<Seq<u8>>::empty());
    }
    let mut hm = HeaderMap::new();
    let mut i: usize = start;
    while i < lines.len()
        invariant
            start <= i <= lines@.len(),
            suf == crate::text::seqs_of(lines@).skip(start as int),
            hm@ == headers_fold(suf.take(i - start)),
            headers_err(suf) == headers_err(suf.skip(i - start)),
        decreases lines@.len() - i,
    {
        let line = lines[i].as_slice();
        let ghost j = i - start;
        proof {
            assert(suf[j] == line@);
            assert(suf.skip(j).first() == suf[j]);
            assert(suf.skip(j).drop_first() =~= suf.skip(j + 1));
            assert(suf.take(j + 1).drop_last() =~= suf.take(j));
            assert(suf.take(j + 1).last() == suf[j]);
        }
        match crate::text::find_from(line, 58, 0) {
            Some(c) => {
                let llen = line.len();
                proof {
                    crate::text::lemma_first_occ_spec(line@, 58, 0);
                    assert(c < llen);
                }
                let head = crate::text::subrange_to_vec(line, 0, c);
                let key_trimmed = crate::text::trim(head.as_slice());
                let key = crate::text::to_lowercase(key_trimmed.as_slice());
                if key.len() == 0 {
                    return Err(ParseError::EmptyHeaderName);
                }
                let val = crate::text::subrange_to_vec(line, c + 1, llen);
                let val = crate::text::trim(val.as_slice());
                proof {
                    assert(key@ == header_key(line@, c as int));
                    assert(val@ == header_val(line@, c as int));
                }
                hm.insert(key, val);
            },
            None => {
                let t = crate::text::trim(line);
                if t.len() != 0 {
                    return Err(ParseError::BadHeaderLine);
                }
            },
        }
        i = i + 1;
    }
    proof {
        assert(suf.take(i - start) =~= suf);
        assert(suf.skip(i - start) =~= Seq::<Seq<u8>>::empty());
    }
    Ok(hm)
}

#[via_fn]
proof fn head_split_at_dec(s: Seq<u8>, i: int) {
    if 0 <= i {
        crate::text::lemma_first_occ_spec(s, 10, i);
    }
}

/// The head of a buffered request, read from position `i`: the stored
/// lines (right-trimmed, without the blank terminator) and the offset
/// just past the terminator. A line ends at `\n`; the terminator is a
/// line that is exactly `\n` or `\r\n`. `None` while no terminator is
/// buffered yet.
pub open spec fn head_split_at(s: Seq<u8>, i: int) -> Option<(Seq<Seq<u8>>, int)>
    decreases s.len() - i when 0 <= i via head_split_at_dec
{
    match crate::text::first_occ(s, 10, i) {
        None => None,
        Some(e) => if e == i || (e == i + 1 && s[i] == 13) {
            Some((Seq::empty(), e + 1))
        } else {
            match head_split_at(s, e + 1) {
                None => None,
                Some(p) => Some(
                    (seq![crate::text::trim_end_spec(s.subrange(i, e))] + p.0, p.1),
                ),
            }
        },
    }
}

/// A complete head ends inside the buffer.
pub proof fn lemma_head_split_bounds(s: Seq<u8>, i: int)
    requires
        0 <= i,
    ensures
        head_split_at(s, i) matches Some(p) ==> i < p.1 <= s.len(),
    decreases s.len() - i,
{
    crate::text::lemma_first_occ_spec(s, 10, i);
    match crate::text::first_occ(s, 10, i) {
        None => {},
        Some(e) => {
            if !(e == i || (e == i + 1 && s[i] == 13)) {
                lemma_head_split_bounds(s, e + 1);
            }
        },
    }
}

/// The stored head lines, where the head is complete.
pub open spec fn hs_lines(s: Seq<u8>, i: int) -> Seq<Seq<u8>> {
    match head_split_at(s, i) {
        None => Seq::empty(),
        Some(p) => p.0,
    }
}

/// The offset just past the head terminator, where the head is complete.
pub open spec fn hs_off(s: Seq<u8>, i: int) -> int {
    match head_split_at(s, i) {
        None => 0,
        Some(p) => p.1,
    }
}

/// Reads the stored head lines out of the buffered bytes, or reports
/// that the blank terminator is not buffered yet.
pub fn split_head_lines(buf: &[u8]) -> (r: Option<(Vec<Vec<u8>>, usize)>)
    ensures
        match r {
            Some(p) => {
                &&& head_split_at(buf@, 0) == Some((crate::text::seqs_of(p.0@), p.1 as int))
                &&& p.1 <= buf@.len()
            },
            None => head_split_at(buf@, 0) is None,
        },
{
    let blen = buf.len();
    let mut lines: Vec<Vec<u8>> = Vec::new();
    let mut i: usize = 0;
    proof {
        assert(crate::text::seqs_of(lines@) =~= Seq::<Seq<u8>>::empty());
    }
    loop
        invariant_except_break
            head_split_at(buf@, i as int) is Some <==> head_split_at(buf@, 0) is Some,
            head_split_at(buf@, i as int) is Some ==> {
                &&& hs_lines(buf@, 0) == crate::text::seqs_of(lines@) + hs_lines(buf@, i as int)
                &&& hs_off(buf@, 0) == hs_off(buf@, i as int)
            },
        invariant
            i <= blen,
            blen == buf@.len(),
        ensures
            match head_split_at(buf@, 0) {
                None => false,
                Some(p) => p.0 == crate::text::seqs_of(lines@) && p.1 == i && i <= blen,
            },
        decreases blen - i,
    {
        match crate::text::find_from(buf, 10, i) {
            None => {
                proof {
                    crate::text::lemma_first_occ_spec(buf@, 10, i as int);
                }
                return None;
            },
            Some(e) => {
                proof {
                    crate::text::lemma_first_occ_spec(buf@, 10, i as int);
                    assert(e < blen);
                }
                if e == i || (e == i + 1 && buf[i] == 13) {
                    proof {
                        assert(head_split_at(buf@, i as int)
                            == Some((Seq::<Seq<u8>>::empty(), e + 1 as int)));
                        assert(crate::text::seqs_of(lines@) + Seq::<Seq<u8>>::empty()
                            =~= crate::text::seqs_of(lines@));
                    }
                    i = e + 1;
                    break;
                }
                let seg = crate::text::subrange_to_vec(buf, i, e);
                let stored = crate::text::trim_end(seg.as_slice());
                let ghost old_lines = lines@;
                lines.push(stored);
                proof {
                    assert(crate::text::seqs_of(lines@)
                        =~= crate::text::seqs_of(old_lines) + seq![stored@]);
                    if head_split_at(buf@, e + 1 as int) is Some {
                        assert(crate::text::seqs_of(old_lines)
                            + (seq![stored@] + hs_lines(buf@, e + 1 as int))
                            =~= crate::text::seqs_of(lines@) + hs_lines(buf@, e + 1 as int));
                    }
                }
                i = e + 1;
            },
        }
    }
    Some((lines, i))
}

/// One parsed HTTP request.
pub struct HttpRequest {
    /// The first request-line token.
    pub method: Vec<u8>,
    /// The request target before its first `?`.
    pub path: Vec<u8>,
    /// The request target after its first `?`, empty without one.
    pub query: Vec<u8>,
    /// The header mapping, keys trimmed and lower-cased.
    pub headers: HeaderMap,
    /// Exactly the announced `content-length` bytes, else empty.
    pub body: Vec<u8>,
}

/// The mathematical content of one parsed request.
#[verifier::ext_equal]
pub ghost struct ReqModel {
    pub method: Seq<u8>,
    pub path: Seq<u8>,
    pub query: Seq<u8>,
    pub headers: Seq<(Seq<u8>, Seq<u8>)>,
    pub body: Seq<u8>,
}

impl View for HttpRequest {
    type V = ReqModel;

    open spec fn view(&self) -> ReqModel {
        ReqModel {
            method: self.method@,
            path: self.path@,
            query: self.query@,
            headers: self.headers@,
            body: self.body@,
        }
    }
}

/// What parsing a buffer yields.
pub enum ParseOutcome {
    /// The buffer does not hold a whole request yet: read more bytes.
    Incomplete,
    /// The head is complete and rejected; the connection is abandoned.
    Malformed(ParseError),
    /// One whole request, and how many buffered bytes it consumed.
    Complete(HttpRequest, usize),
}

/// The mathematical content of a parse outcome.
#[verifier::ext_equal]
pub ghost enum OutcomeModel {
    Incomplete,
    Malformed(ParseError),
    Complete(ReqModel, int),
}

impl View for ParseOutcome {
    type V = OutcomeModel;

    open spec fn view(&self) -> OutcomeModel {
        match self {
            ParseOutcome::Incomplete => OutcomeModel::Incomplete,
            ParseOutcome::Malformed(e) => OutcomeModel::Malformed(*e),
            ParseOutcome::Complete(req, n) => OutcomeModel::Complete(req@, *n as int),
        }
    }
}

/// The bytes of `content-length`.
pub open spec fn content_length_key() -> Seq<u8> {
    seq![99u8, 111u8, 110u8, 116u8, 101u8, 110u8, 116u8, 45u8,
        108u8, 101u8, 110u8, 103u8, 116u8, 104u8]
}

/// The body length a header mapping announces: the value under
/// `content-length` when it parses as an unsigned decimal that fits
/// the machine, and zero otherwise.
pub open spec fn content_len_of(hs: Seq<(Seq<u8>, Seq<u8>)>) -> nat {
    match crate::headers::lookup(hs, content_length_key()) {
        None => 0,
        Some(v) => if crate::text::parses_as_uint(v, usize::MAX as nat) {
            crate::text::dec_val(crate::text::uint_digits(v))
        } else {
            0
        },
    }
}

/// What parsing the buffered bytes of one connection yields.
///
/// The head is complete once a blank line ends it; its first stored
/// line must be a valid request line and the remaining stored lines
/// valid header lines; the body is exactly the announced
/// `content-length` bytes, which must all be buffered.
pub open spec fn parse_spec(s: Seq<u8>) -> OutcomeModel {
    match head_split_at(s, 0) {
        None => OutcomeModel::Incomplete,
        Some(p) => {
            let lines = p.0;
            let off = p.1;
            if lines.len() == 0 {
                OutcomeModel::Malformed(ParseError::EmptyRequest)
            } else {
                match req_line_err(lines[0]) {
                    Some(e) => OutcomeModel::Malformed(e),
                    None => match headers_err(lines.skip(1)) {
                        Some(e) => OutcomeModel::Malformed(e),
                        None => {
                            let hs = headers_fold(lines.skip(1));
                            let n = content_len_of(hs);
                            if s.len() < off + n {
                                OutcomeModel::Incomplete
                            } else {
                                let target = req_tokens(lines[0])[1];
                                OutcomeModel::Complete(
                                    ReqModel {
                                        method: req_tokens(lines[0])[0],
                                        path: path_of(target),
                                        query: query_of(target),
                                        headers: hs,
                                        body: s.subrange(off, off + n),
                                    },
                                    off + n,
                                )
                            }
                        },
                    },
                }
            }
        },
    }
}

/// Parses one HTTP request out of the bytes buffered so far.
pub fn parse_http_request(buf: &[u8]) -> (r: ParseOutcome)
    ensures
        r@ == parse_spec(buf@),
{
    let (lines, off) = match split_head_lines(buf) {
        None => {
            return ParseOutcome::Incomplete;
        },
        Some(p) => p,
    };
    let ghost spec_lines = crate::text::seqs_of(lines@);
    if lines.len() == 0 {
        return ParseOutcome::Malformed(ParseError::EmptyRequest);
    }
    assert(spec_lines[0] == lines@[0]@);
    let (method, path, query) = match parse_request_line(lines[0].as_slice()) {
        Err(e) => {
            return ParseOutcome::Malformed(e);
        },
        Ok(t) => t,
    };
    let hm = match build_headers(&lines, 1) {
        Err(e) => {
            return ParseOutcome::Malformed(e);
        },
        Ok(hm) => hm,
    };
    let clkey = vec![99u8, 111u8, 110u8, 116u8, 101u8, 110u8, 116u8, 45u8,
        108u8, 101u8, 110u8, 103u8, 116u8, 104u8];
    assert(clkey@ =~= content_length_key());
    let n: usize = match hm.get(clkey.as_slice()) {
        None => 0,
        Some(v) => match crate::text::parse_uint_capped(v.as_slice(), usize::MAX as u64) {
            None => 0,
            Some(x) => x as usize,
        },
    };
    assert(n == content_len_of(hm@));
    let blen = buf.len();
    if blen - off < n {
        assert(buf@.len() < hs_off(buf@, 0) + content_len_of(hm@));
        return ParseOutcome::Incomplete;
    }
    let body = crate::text::subrange_to_vec(buf, off, off + n);
    let req = HttpRequest { method, path, query, headers: hm, body };
    let r = ParseOutcome::Complete(req, off + n);
    proof {
        assert(r@ =~= parse_spec(buf@));
    }
    r
}

/// A parsed request's method, path and query are exactly the
/// whitespace split of its request line, with the target cut at its
/// first `?`, and an empty query when the target has no `?`.
pub proof fn lemma_parse_splits_request_line(s: Seq<u8>)
    requires
        parse_spec(s) is Complete,
    ensures
        parse_spec(s) matches OutcomeModel::Complete(m, _) ==> {
            let line = hs_lines(s, 0)[0];
            let target = req_tokens(line)[1];
            &&& req_tokens(line).len() >= 2
            &&& m.method == req_tokens(line)[0]
            &&& m.path == path_of(target)
            &&& m.query == query_of(target)
            &&& (crate::text::first_occ(target, 63, 0) is None ==> m.query == Seq::<u8>::empty())
        },
{
}

/// A header key is stored trimmed and lower-cased, and a repeated key
/// keeps only the last value.
pub proof fn lemma_repeated_header_key_last_wins(
    lines: Seq<Seq<u8>>,
    l1: Seq<u8>,
    l2: Seq<u8>,
    c1: int,
    c2: int,
)
    requires
        crate::text::first_occ(l1, 58, 0) == Some(c1),
        crate::text::first_occ(l2, 58, 0) == Some(c2),
        header_key(l1, c1) == header_key(l2, c2),
        header_key(l2, c2).len() > 0,
    ensures
        crate::headers::lookup(
            headers_fold(lines.push(l1).push(l2)),
            header_key(l2, c2),
        ) == Some(header_val(l2, c2)),
{
    let with_l1 = lines.push(l1);
    let both = with_l1.push(l2);
    assert(both.drop_last() =~= with_l1);
    assert(both.last() == l2);
    crate::headers::lemma_lookup_upsert_same(
        headers_fold(with_l1),
        header_key(l2, c2),
        header_val(l2, c2),
    );
}

/// A complete parse consumes the head plus exactly the announced
/// `content-length` bytes, and the body is exactly those bytes.
pub proof fn lemma_body_matches_content_length(s: Seq<u8>)
    requires
        parse_spec(s) is Complete,
    ensures
        parse_spec(s) matches OutcomeModel::Complete(m, consumed) ==> {
            &&& m.body.len() == content_len_of(m.headers)
            &&& consumed == hs_off(s, 0) + content_len_of(m.headers)
            &&& m.body == s.subrange(hs_off(s, 0), consumed)
            &&& consumed <= s.len()
        },
{
    lemma_head_split_bounds(s, 0);
}

} // verus!
