//! Byte-level text helpers shared by the HTTP parser, the route resolver
//! and the wire builders: whitespace, trimming, case folding, searching,
//! splitting and decimal conversion, each against a mathematical model.

use vstd::prelude::*;

verus! {

/// The ASCII whitespace bytes that line trimming and request-line
/// tokenisation recognise.
pub open spec fn is_ws(b: u8) -> bool {
    b == 9 || b == 10 || b == 11 || b == 12 || b == 13 || b == 32
}

/// Exec mirror of [`is_ws`].
pub fn is_ws_byte(b: u8) -> (r: bool)
    ensures
        r == is_ws(b),
{
    b == 9 || b == 10 || b == 11 || b == 12 || b == 13 || b == 32
}

/// Index of the first occurrence of `b` in `s` at or after `i`.
pub open spec fn first_occ(s: Seq<u8>, b: u8, i: int) -> Option<int>
    decreases s.len() - i when 0 <= i
{
    if i >= s.len() {
        None
    } else if s[i] == b {
        Some(i)
    } else {
        first_occ(s, b, i + 1)
    }
}

/// What [`first_occ`] returns: the least index holding `b`, if any.
pub proof fn lemma_first_occ_spec(s: Seq<u8>, b: u8, i: int)
    requires
        0 <= i,
    ensures
        first_occ(s, b, i) matches Some(e) ==>
            i <= e < s.len() && s[e] == b && (forall|k: int| i <= k < e ==> s[k] != b),
        first_occ(s, b, i) is None ==> (forall|k: int| i <= k < s.len() ==> s[k] != b),
    decreases s.len() - i,
{
    if i < s.len() && s[i] != b {
        lemma_first_occ_spec(s, b, i + 1);
    }
}

/// [`first_occ`] finds the first match.
pub proof fn lemma_first_occ_exists(s: Seq<u8>, b: u8, i: int, j: int)
    requires
        0 <= i <= j < s.len(),
        s[j] == b,
        forall|k: int| i <= k < j ==> s[k] != b,
    ensures
        first_occ(s, b, i) == Some(j),
    decreases j - i,
{
    if i < j {
        lemma_first_occ_exists(s, b, i + 1, j);
    }
}

/// [`first_occ`] finds nothing when `b` does not occur.
pub proof fn lemma_first_occ_none(s: Seq<u8>, b: u8, i: int)
    requires
        0 <= i,
        forall|k: int| i <= k < s.len() ==> s[k] != b,
    ensures
        first_occ(s, b, i) is None,
    decreases s.len() - i,
{
    if i < s.len() {
        lemma_first_occ_none(s, b, i + 1);
    }
}

/// First occurrence of `b` in `s` at or after `from`.
pub fn find_from(s: &[u8], b: u8, from: usize) -> (r: Option<usize>)
    requires
        from <= s@.len(),
    ensures
        match r {
            Some(e) => first_occ(s@, b, from as int) == Some(e as int),
            None => first_occ(s@, b, from as int) is None,
        },
{
    let mut i: usize = from;
    while i < s.len()
        invariant
            from <= i <= s@.len(),
            first_occ(s@, b, from as int) == first_occ(s@, b, i as int),
        decreases s@.len() - i,
    {
        if s[i] == b {
            return Some(i);
        }
        i = i + 1;
    }
    None
}

/// Copy of `s[a..b]` as an owned vector.
pub fn subrange_to_vec(s: &[u8], a: usize, b: usize) -> (r: Vec<u8>)
    requires
        a <= b <= s@.len(),
    ensures
        r@ == s@.subrange(a as int, b as int),
{
    let mut out: Vec<u8> = Vec::new();
    let mut i: usize = a;
    while i < b
        invariant
            a <= i <= b <= s@.len(),
            out@ == s@.subrange(a as int, i as int),
        decreases b - i,
    {
        out.push(s[i]);
        i = i + 1;
        assert(out@ =~= s@.subrange(a as int, i as int));
    }
    out
}

/// Byte-wise equality of two byte strings.
pub fn bytes_eq(a: &[u8], b: &[u8]) -> (r: bool)
    ensures
        r == (a@ == b@),
{
    if a.len() != b.len() {
        assert(a@ != b@) by {
            assert(a@.len() != b@.len());
        }
        return false;
    }
    let mut i: usize = 0;
    while i < a.len()
        invariant
            i <= a@.len(),
            a@.len() == b@.len(),
            forall|k: int| 0 <= k < i ==> a@[k] == b@[k],
        decreases a@.len() - i,
    {
        if a[i] != b[i] {
            return false;
        }
        i = i + 1;
    }
    assert(a@ =~= b@);
    true
}

/// Whether `s` begins with `p`.
pub open spec fn starts_with_spec(s: Seq<u8>, p: Seq<u8>) -> bool {
    p.len() <= s.len() && s.subrange(0, p.len() as int) == p
}

/// Whether `s` begins with `p`.
pub fn starts_with(s: &[u8], p: &[u8]) -> (r: bool)
    ensures
        r == starts_with_spec(s@, p@),
{
    if s.len() < p.len() {
        return false;
    }
    let mut i: usize = 0;
    while i < p.len()
        invariant
            i <= p@.len() <= s@.len(),
            forall|k: int| 0 <= k < i ==> s@[k] == p@[k],
        decreases p@.len() - i,
    {
        if s[i] != p[i] {
            assert(s@.subrange(0, p@.len() as int)[i as int] != p@[i as int]);
            return false;
        }
        i = i + 1;
    }
    assert(s@.subrange(0, p@.len() as int) =~= p@);
    true
}

/// `s` with leading whitespace removed.
pub open spec fn trim_start_spec(s: Seq<u8>) -> Seq<u8>
    decreases s.len()
{
    if s.len() > 0 && is_ws(s[0]) {
        trim_start_spec(s.drop_first())
    } else {
        s
    }
}

/// `s` with trailing whitespace removed.
pub open spec fn trim_end_spec(s: Seq<u8>) -> Seq<u8>
    decreases s.len()
{
    if s.len() > 0 && is_ws(s.last()) {
        trim_end_spec(s.drop_last())
    } else {
        s
    }
}

/// `s` with whitespace removed from both ends.
pub open spec fn trim_spec(s: Seq<u8>) -> Seq<u8> {
    trim_end_spec(trim_start_spec(s))
}

proof fn lemma_trim_start_at(s: Seq<u8>, i: int)
    requires
        0 <= i <= s.len(),
        forall|k: int| 0 <= k < i ==> is_ws(s[k]),
        i == s.len() || !is_ws(s[i]),
    ensures
        trim_start_spec(s) == s.skip(i),
    decreases i,
{
    if i == 0 {
        assert(s.skip(0) =~= s);
    } else {
        lemma_trim_start_at(s.drop_first(), i - 1);
        assert(s.drop_first().skip(i - 1) =~= s.skip(i));
    }
}

proof fn lemma_trim_end_at(s: Seq<u8>, j: int)
    requires
        0 <= j <= s.len(),
        forall|k: int| j <= k < s.len() ==> is_ws(s[k]),
        j == 0 || !is_ws(s[j - 1]),
    ensures
        trim_end_spec(s) == s.take(j),
    decreases s.len() - j,
{
    if j == s.len() {
        assert(s.take(j) =~= s);
    } else {
        lemma_trim_end_at(s.drop_last(), j);
        assert(s.drop_last().take(j) =~= s.take(j));
    }
}

/// Copy of `s` with whitespace removed from both ends.
pub fn trim(s: &[u8]) -> (r: Vec<u8>)
    ensures
        r@ == trim_spec(s@),
{
    let mut i: usize = 0;
    while i < s.len() && is_ws_byte(s[i])
        invariant
            i <= s@.len(),
            forall|k: int| 0 <= k < i ==> is_ws(s@[k]),
        decreases s@.len() - i,
    {
        i = i + 1;
    }
    proof {
        lemma_trim_start_at(s@, i as int);
    }
    let mut j: usize = s.len();
    while j > i && is_ws_byte(s[j - 1])
        invariant
            i <= j <= s@.len(),
            forall|k: int| j <= k < s@.len() ==> is_ws(s@[k]),
        decreases j,
    {
        j = j - 1;
    }
    proof {
        if i == s@.len() {
            assert(trim_start_spec(s@) =~= s@.subrange(i as int, j as int));
            assert(trim_end_spec(trim_start_spec(s@)) == trim_start_spec(s@));
        } else {
            let t = s@.skip(i as int);
            lemma_trim_end_at(t, j - i);
            assert(t.take(j - i) =~= s@.subrange(i as int, j as int));
        }
    }
    subrange_to_vec(s, i, j)
}

/// ASCII lower-casing of one byte.
pub open spec fn lower_byte(b: u8) -> u8 {
    if 65 <= b <= 90 {
        (b + 32) as u8
    } else {
        b
    }
}

/// ASCII lower-casing of a byte string.
pub open spec fn lower_spec(s: Seq<u8>) -> Seq<u8> {
    s.map_values(|b: u8| lower_byte(b))
}

/// Copy of `s` with ASCII upper-case letters folded to lower case.
pub fn to_lowercase(s: &[u8]) -> (r: Vec<u8>)
    ensures
        r@ == lower_spec(s@),
{
    let mut out: Vec<u8> = Vec::new();
    let mut i: usize = 0;
    while i < s.len()
        invariant
            i <= s@.len(),
            out@ == lower_spec(s@).take(i as int),
        decreases s@.len() - i,
    {
        let b = s[i];
        if 65 <= b && b <= 90 {
            out.push(b + 32);
        } else {
            out.push(b);
        }
        i = i + 1;
        assert(out@ =~= lower_spec(s@).take(i as int));
    }
    assert(lower_spec(s@).take(s@.len() as int) =~= lower_spec(s@));
    out
}

/// End of the whitespace-free run that starts at `i`.
pub open spec fn token_end(s: Seq<u8>, i: int) -> int
    decreases s.len() - i when 0 <= i
{
    if i < s.len() && !is_ws(s[i]) {
        token_end(s, i + 1)
    } else {
        i
    }
}

pub proof fn lemma_token_end_bounds(s: Seq<u8>, i: int)
    requires
        0 <= i <= s.len(),
    ensures
        i <= token_end(s, i) <= s.len(),
    decreases s.len() - i,
{
    if i < s.len() && !is_ws(s[i]) {
        lemma_token_end_bounds(s, i + 1);
    }
}

#[via_fn]
proof fn tokens_from_dec(s: Seq<u8>, i: int) {
    if 0 <= i < s.len() && !is_ws(s[i]) {
        lemma_token_end_bounds(s, i + 1);
    }
}

/// The whitespace-separated tokens of `s` from position `i` on.
pub open spec fn tokens_from(s: Seq<u8>, i: int) -> Seq<Seq<u8>>
    decreases s.len() - i when 0 <= i via tokens_from_dec
{
    if i >= s.len() {
        Seq::empty()
    } else if is_ws(s[i]) {
        tokens_from(s, i + 1)
    } else {
        seq![s.subrange(i, token_end(s, i))] + tokens_from(s, token_end(s, i))
    }
}

/// The whitespace-separated tokens of a whole byte string.
pub open spec fn tokens_spec(s: Seq<u8>) -> Seq<Seq<u8>> {
    tokens_from(s, 0)
}

/// The views of a vector of byte vectors.
pub open spec fn seqs_of(vs: Seq<Vec<u8>>) -> Seq<Seq<u8>> {
    vs.map_values(|v: Vec<u8>| v@)
}

/// Splits `s` into its whitespace-separated tokens.
pub fn tokenize(s: &[u8]) -> (r: Vec<Vec<u8>>)
    ensures
        seqs_of(r@) == tokens_spec(s@),
{
    let mut out: Vec<Vec<u8>> = Vec::new();
    let mut i: usize = 0;
    while i < s.len()
        invariant
            i <= s@.len(),
            tokens_spec(s@) == seqs_of(out@) + tokens_from(s@, i as int),
        decreases s@.len() - i,
    {
        if is_ws_byte(s[i]) {
            i = i + 1;
        } else {
            let start = i;
            let mut j: usize = i;
            while j < s.len() && !is_ws_byte(s[j])
                invariant
                    start <= j <= s@.len(),
                    token_end(s@, start as int) == token_end(s@, j as int),
                decreases s@.len() - j,
            {
                j = j + 1;
            }
            assert(token_end(s@, start as int) == j as int);
            let tok = subrange_to_vec(s, start, j);
            out.push(tok);
            proof {
                assert(seqs_of(out@) =~= seqs_of(out@.drop_last()) + seq![tok@]);
                assert(tokens_from(s@, start as int) == seq![tok@] + tokens_from(s@, j as int));
            }
            i = j;
        }
    }
    assert(tokens_from(s@, i as int) =~= Seq::<Seq<u8>>::empty());
    assert(seqs_of(out@) =~= seqs_of(out@) + Seq::<Seq<u8>>::empty());
    out
}

#[via_fn]
proof fn split_from_dec(s: Seq<u8>, sep: u8, i: int) {
    if 0 <= i {
        lemma_first_occ_spec(s, sep, i);
    }
}

/// The segments of `s` from position `i` on, split at every `sep` byte.
/// Empty segments are kept, as `str::split` keeps them.
pub open spec fn split_from(s: Seq<u8>, sep: u8, i: int) -> Seq<Seq<u8>>
    decreases s.len() - i when 0 <= i via split_from_dec
{
    match first_occ(s, sep, i) {
        None => seq![s.subrange(i, s.len() as int)],
        Some(e) => seq![s.subrange(i, e)] + split_from(s, sep, e + 1),
    }
}

/// The `sep`-separated segments of a whole byte string.
pub open spec fn split_spec(s: Seq<u8>, sep: u8) -> Seq<Seq<u8>> {
    split_from(s, sep, 0)
}

/// Splits `s` at every `sep` byte, keeping empty segments.
pub fn split(s: &[u8], sep: u8) -> (r: Vec<Vec<u8>>)
    ensures
        seqs_of(r@) == split_spec(s@, sep),
        r@.len() >= 1,
{
    let mut out: Vec<Vec<u8>> = Vec::new();
    let mut i: usize = 0;
    loop
        invariant
            i <= s@.len(),
            split_spec(s@, sep) == seqs_of(out@) + split_from(s@, sep, i as int),
        ensures
            seqs_of(out@) == split_spec(s@, sep),
            out@.len() >= 1,
        decreases s@.len() - i,
    {
        match find_from(s, sep, i) {
            None => {
                proof {
                    lemma_first_occ_spec(s@, sep, i as int);
                }
                let seg = subrange_to_vec(s, i, s.len());
                out.push(seg);
                proof {
                    assert(seqs_of(out@) =~= seqs_of(out@.drop_last()) + seq![seg@]);
                    assert(seqs_of(out@) + Seq::<Seq<u8>>::empty() =~= seqs_of(out@));
                }
                return out;
            },
            Some(e) => {
                let slen = s.len();
                proof {
                    lemma_first_occ_spec(s@, sep, i as int);
                    assert(e < slen);
                }
                let seg = subrange_to_vec(s, i, e);
                out.push(seg);
                proof {
                    assert(seqs_of(out@) =~= seqs_of(out@.drop_last()) + seq![seg@]);
                }
                i = e + 1;
            },
        }
    }
}

/// Whether every byte of `s` is an ASCII decimal digit.
pub open spec fn all_digits(s: Seq<u8>) -> bool {
    forall|k: int| 0 <= k < s.len() ==> 48 <= #[trigger] s[k] <= 57
}

/// The value of a string of decimal digits.
pub open spec fn dec_val(s: Seq<u8>) -> nat
    decreases s.len()
{
    if s.len() == 0 {
        0
    } else {
        dec_val(s.drop_last()) * 10 + (s.last() - 48) as nat
    }
}

/// The digit part of an unsigned decimal string: an optional leading
/// `+` is allowed, as Rust's unsigned `str::parse` allows it.
pub open spec fn uint_digits(s: Seq<u8>) -> Seq<u8> {
    if s.len() > 0 && s[0] == 43 {
        s.drop_first()
    } else {
        s
    }
}

/// Whether `s` parses as an unsigned decimal value of at most `max`.
pub open spec fn parses_as_uint(s: Seq<u8>, max: nat) -> bool {
    let d = uint_digits(s);
    d.len() > 0 && all_digits(d) && dec_val(d) <= max
}

/// A digit string's value only grows as digits are appended.
pub proof fn lemma_dec_val_prefix(d: Seq<u8>, j: int)
    requires
        0 <= j <= d.len(),
    ensures
        dec_val(d.take(j)) <= dec_val(d),
    decreases d.len(),
{
    if j < d.len() {
        assert(d.drop_last().take(j) =~= d.take(j));
        lemma_dec_val_prefix(d.drop_last(), j);
    } else {
        assert(d.take(j) =~= d);
    }
}

/// Parses `s` as an unsigned decimal number of at most `max`, as
/// Rust's unsigned `str::parse` would: an optional leading `+`, then
/// one or more digits, rejected when the value exceeds `max`.
pub fn parse_uint_capped(s: &[u8], max: u64) -> (r: Option<u64>)
    ensures
        match r {
            Some(v) => parses_as_uint(s@, max as nat) && v == dec_val(uint_digits(s@)),
            None => !parses_as_uint(s@, max as nat),
        },
{
    let ghost d = uint_digits(s@);
    let start: usize = if s.len() > 0 && s[0] == 43 {
        1
    } else {
        0
    };
    assert(d =~= s@.subrange(start as int, s@.len() as int));
    if s.len() == start {
        return None;
    }
    let mut acc: u64 = 0;
    let mut i: usize = start;
    while i < s.len()
        invariant
            start <= i <= s@.len(),
            d == uint_digits(s@),
            d == s@.subrange(start as int, s@.len() as int),
            acc <= max,
            acc == dec_val(d.take(i - start)),
            forall|k: int| 0 <= k < i - start ==> 48 <= #[trigger] d[k] <= 57,
        decreases s@.len() - i,
    {
        let b = s[i];
        if b < 48 || b > 57 {
            assert(!all_digits(d)) by {
                assert(d[i - start] == b);
            }
            return None;
        }
        let digit = (b - 48) as u64;
        proof {
            assert(d.take(i - start + 1).drop_last() =~= d.take(i - start));
            assert(dec_val(d.take(i - start + 1)) == acc * 10 + digit);
        }
        if acc > max / 10 || (acc == max / 10 && digit > max % 10) {
            proof {
                assert(acc * 10 + digit > max) by (nonlinear_arith)
                    requires
                        acc > max / 10 || (acc == max / 10 && digit > max % 10),
                        max / 10 == (max - max % 10) / 10,
                        max == (max / 10) * 10 + max % 10,
                        digit >= 0,
                    ;
                lemma_dec_val_prefix(d, i - start + 1);
            }
            return None;
        }
        assert(acc * 10 + digit <= max) by (nonlinear_arith)
            requires
                acc <= max / 10,
                acc == max / 10 ==> digit <= max % 10,
                max == (max / 10) * 10 + max % 10,
                0 <= digit <= 9,
            ;
        acc = acc * 10 + digit;
        i = i + 1;
    }
    assert(d.take(s@.len() - start) =~= d);
    Some(acc)
}

/// The decimal digit string of `n`, with no sign and no leading zero.
pub open spec fn dec_rep(n: nat) -> Seq<u8>
    decreases n
{
    if n < 10 {
        seq![(48 + n) as u8]
    } else {
        dec_rep(n / 10) + seq![(48 + n % 10) as u8]
    }
}

/// Writes `n` in decimal.
pub fn u64_to_dec(n: u64) -> (r: Vec<u8>)
    ensures
        r@ == dec_rep(n as nat),
    decreases n,
{
    if n < 10 {
        let mut v: Vec<u8> = Vec::new();
        v.push(48 + n as u8);
        assert(v@ =~= dec_rep(n as nat));
        v
    } else {
        let mut v = u64_to_dec(n / 10);
        v.push(48 + (n % 10) as u8);
        assert(v@ =~= dec_rep(n as nat));
        v
    }
}

/// Copy of `s[0..j]` where `j` cuts all trailing whitespace.
pub fn trim_end(s: &[u8]) -> (r: Vec<u8>)
    ensures
        r@ == trim_end_spec(s@),
{
    let mut j: usize = s.len();
    while j > 0 && is_ws_byte(s[j - 1])
        invariant
            j <= s@.len(),
            forall|k: int| j <= k < s@.len() ==> is_ws(s@[k]),
        decreases j,
    {
        j = j - 1;
    }
    proof {
        lemma_trim_end_at(s@, j as int);
        assert(s@.take(j as int) =~= s@.subrange(0, j as int));
    }
    subrange_to_vec(s, 0, j)
}

/// Appends every byte of `s` to `out`.
pub fn push_bytes(out: &mut Vec<u8>, s: &[u8])
    ensures
        final(out)@ == old(out)@ + s@,
{
    let mut i: usize = 0;
    while i < s.len()
        invariant
            i <= s@.len(),
            out@ == old(out)@ + s@.take(i as int),
        decreases s@.len() - i,
    {
        out.push(s[i]);
        i = i + 1;
        assert(out@ =~= old(out)@ + s@.take(i as int));
    }
    assert(old(out)@ + s@.take(s@.len() as int) =~= old(out)@ + s@);
}

/// Owned copy of a byte string.
pub fn clone_bytes(s: &[u8]) -> (r: Vec<u8>)
    ensures
        r@ == s@,
{
    let r = subrange_to_vec(s, 0, s.len());
    assert(s@.subrange(0, s@.len() as int) =~= s@);
    r
}

} // verus!
