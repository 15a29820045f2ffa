//! Byte-level scanning primitives: finding a byte, finding a CRLF pair, and
//! trimming ASCII whitespace.  The specification functions here are the
//! vocabulary in which the contracts of the cursor and the parser are stated.

use vstd::prelude::*;

verus! {

/// Carriage return, `\r`.
pub const CR: u8 = 13;

/// Line feed, `\n`.
pub const LF: u8 = 10;

/// ASCII space.
pub const SP: u8 = 32;

/// ASCII horizontal tab.
pub const HT: u8 = 9;

/// ASCII colon, the separator of a header field line.
pub const COLON: u8 = 58;

/// The ASCII whitespace bytes that header names and values are trimmed of:
/// space, tab, carriage return and line feed.
pub open spec fn is_ws(b: u8) -> bool {
    b == SP || b == HT || b == CR || b == LF
}

/// Index of the first occurrence of `b` in `s` at or after `from`,
/// or `s.len()` when there is none.
pub open spec fn find_byte_from(s: Seq<u8>, b: u8, from: int) -> int
    recommends
        0 <= from,
    decreases s.len() - from,
{
    if from >= s.len() {
        s.len() as int
    } else if s[from] == b {
        from
    } else {
        find_byte_from(s, b, from + 1)
    }
}

/// `find_byte_from` stays within bounds, lands on `b`, and skips no earlier
/// occurrence of `b`.
pub proof fn lemma_find_byte_from(s: Seq<u8>, b: u8, from: int)
    requires
        0 <= from <= s.len(),
    ensures
        from <= find_byte_from(s, b, from) <= s.len(),
        find_byte_from(s, b, from) < s.len() ==> s[find_byte_from(s, b, from)] == b,
        forall|j: int| from <= j < find_byte_from(s, b, from) ==> s[j] != b,
    decreases s.len() - from,
{
    if from < s.len() && s[from] != b {
        lemma_find_byte_from(s, b, from + 1);
    }
}

/// Index of the first position at or after `from` where the two-byte
/// sequence CR LF begins, or `s.len()` when no such position exists.
/// A lone CR or LF, or a CR in the last position, starts no line terminator.
pub open spec fn crlf_from(s: Seq<u8>, from: int) -> int
    recommends
        0 <= from,
    decreases s.len() - from,
{
    if from + 1 >= s.len() {
        s.len() as int
    } else if s[from] == CR && s[from + 1] == LF {
        from
    } else {
        crlf_from(s, from + 1)
    }
}

/// `crlf_from` stays within bounds, lands on a CR LF pair, and skips no
/// earlier pair.
pub proof fn lemma_crlf_from(s: Seq<u8>, from: int)
    requires
        0 <= from <= s.len(),
    ensures
        from <= crlf_from(s, from) <= s.len(),
        crlf_from(s, from) < s.len() ==> crlf_from(s, from) + 1 < s.len()
            && s[crlf_from(s, from)] == CR && s[crlf_from(s, from) + 1] == LF,
        forall|j: int| from <= j < crlf_from(s, from) && j + 1 < s.len()
            ==> !(#[trigger] s[j] == CR && s[j + 1] == LF),
    decreases s.len() - from,
{
    if from + 1 < s.len() && !(s[from] == CR && s[from + 1] == LF) {
        lemma_crlf_from(s, from + 1);
    }
}

/// Whether `s` holds a CR LF pair anywhere.
pub open spec fn has_crlf(s: Seq<u8>) -> bool {
    exists|i: int| 0 <= i && i + 1 < s.len() && #[trigger] s[i] == CR && s[i + 1] == LF
}

/// `crlf_from(s, 0)` finds a position exactly when a CR LF pair exists.
pub proof fn lemma_has_crlf(s: Seq<u8>)
    ensures
        has_crlf(s) <==> crlf_from(s, 0) < s.len(),
{
    lemma_crlf_from(s, 0);
    if crlf_from(s, 0) < s.len() {
        assert(has_crlf(s));
    }
    if has_crlf(s) {
        let i = choose|i: int| 0 <= i && i + 1 < s.len() && #[trigger] s[i] == CR && s[i + 1]
            == LF;
        assert(!(crlf_from(s, 0) > i));
    }
}

/// Index of the first byte of `s` at or after `from` that is not ASCII
/// whitespace, or `s.len()` when all of them are.
pub open spec fn skip_ws_from(s: Seq<u8>, from: int) -> int
    recommends
        0 <= from,
    decreases s.len() - from,
{
    if from >= s.len() {
        s.len() as int
    } else if is_ws(s[from]) {
        skip_ws_from(s, from + 1)
    } else {
        from
    }
}

/// `skip_ws_from` stays within bounds, lands on a non-whitespace byte, and
/// skips only whitespace.
pub proof fn lemma_skip_ws_from(s: Seq<u8>, from: int)
    requires
        0 <= from <= s.len(),
    ensures
        from <= skip_ws_from(s, from) <= s.len(),
        skip_ws_from(s, from) < s.len() ==> !is_ws(s[skip_ws_from(s, from)]),
        forall|j: int| from <= j < skip_ws_from(s, from) ==> is_ws(s[j]),
    decreases s.len() - from,
{
    if from < s.len() && is_ws(s[from]) {
        lemma_skip_ws_from(s, from + 1);
    }
}

/// One past the last byte of `s.take(upto)` that is not ASCII whitespace,
/// or `0` when all of the first `upto` bytes are whitespace.
pub open spec fn rskip_ws_upto(s: Seq<u8>, upto: int) -> int
    recommends
        upto <= s.len(),
    decreases upto,
{
    if upto <= 0 {
        0
    } else if is_ws(s[upto - 1]) {
        rskip_ws_upto(s, upto - 1)
    } else {
        upto
    }
}

/// `rskip_ws_upto` stays within bounds, ends after a non-whitespace byte,
/// and drops only whitespace.
pub proof fn lemma_rskip_ws_upto(s: Seq<u8>, upto: int)
    requires
        0 <= upto <= s.len(),
    ensures
        0 <= rskip_ws_upto(s, upto) <= upto,
        rskip_ws_upto(s, upto) > 0 ==> !is_ws(s[rskip_ws_upto(s, upto) - 1]),
        forall|j: int| rskip_ws_upto(s, upto) <= j < upto ==> is_ws(s[j]),
    decreases upto,
{
    if upto > 0 && is_ws(s[upto - 1]) {
        lemma_rskip_ws_upto(s, upto - 1);
    }
}

/// `s` with leading and trailing ASCII whitespace removed.
pub open spec fn spec_trim(s: Seq<u8>) -> Seq<u8> {
    let a = skip_ws_from(s, 0);
    if a == s.len() {
        Seq::empty()
    } else {
        s.subrange(a, rskip_ws_upto(s, s.len() as int))
    }
}

/// When `s` holds a non-whitespace byte, the first such byte comes no later
/// than the last one: the two trim indices give a well-formed range.
pub proof fn lemma_trim_range(s: Seq<u8>)
    requires
        skip_ws_from(s, 0) < s.len(),
    ensures
        skip_ws_from(s, 0) < rskip_ws_upto(s, s.len() as int) <= s.len(),
{
    let a = skip_ws_from(s, 0);
    let b = rskip_ws_upto(s, s.len() as int);
    lemma_skip_ws_from(s, 0);
    lemma_rskip_ws_upto(s, s.len() as int);
    if b <= a {
        assert(is_ws(s[a]));
    }
}

/// First occurrence of `b` in `s` at or after `from`, or the length of `s`
/// when `b` does not occur there.
pub fn find_byte(s: &[u8], b: u8, from: usize) -> (r: usize)
    requires
        from <= s@.len(),
    ensures
        r == find_byte_from(s@, b, from as int),
        from <= r <= s@.len(),
{
    proof {
        lemma_find_byte_from(s@, b, from as int);
    }
    let n = s.len();
    let mut i = from;
    while i < n
        invariant
            from <= i <= n,
            n == s@.len(),
            find_byte_from(s@, b, from as int) == find_byte_from(s@, b, i as int),
        decreases n - i,
    {
        if s[i] == b {
            return i;
        }
        i = i + 1;
    }
    i
}

/// First position of a CR LF pair in `s` at or after `from`, or the length
/// of `s` when there is none.
pub fn find_crlf(s: &[u8], from: usize) -> (r: usize)
    requires
        from <= s@.len(),
    ensures
        r == crlf_from(s@, from as int),
        from <= r <= s@.len(),
{
    proof {
        lemma_crlf_from(s@, from as int);
    }
    let n = s.len();
    let mut i = from;
    while n - i > 1
        invariant
            from <= i <= n,
            n == s@.len(),
            crlf_from(s@, from as int) == crlf_from(s@, i as int),
        decreases n - i,
    {
        if s[i] == CR && s[i + 1] == LF {
            return i;
        }
        i = i + 1;
    }
    n
}

/// Whether `b` is one of the ASCII whitespace bytes that trimming removes.
pub fn is_ws_byte(b: u8) -> (r: bool)
    ensures
        r == is_ws(b),
{
    b == SP || b == HT || b == CR || b == LF
}

/// The sub-slice of `s` left after removing leading and trailing ASCII
/// whitespace.
pub fn trim_ascii<'a>(s: &'a [u8]) -> (r: &'a [u8])
    ensures
        r@ == spec_trim(s@),
{
    let n = s.len();
    let mut a: usize = 0;
    while a < n && is_ws_byte(s[a])
        invariant
            0 <= a <= n,
            n == s@.len(),
            skip_ws_from(s@, 0) == skip_ws_from(s@, a as int),
        decreases n - a,
    {
        a = a + 1;
    }
    if a == n {
        proof {
            assert(spec_trim(s@) =~= s@.subrange(0, 0));
        }
        return vstd::slice::slice_subrange(s, 0, 0);
    }
    let mut b: usize = n;
    while b > 0 && is_ws_byte(s[b - 1])
        invariant
            0 <= b <= n,
            n == s@.len(),
            rskip_ws_upto(s@, n as int) == rskip_ws_upto(s@, b as int),
        decreases b,
    {
        b = b - 1;
    }
    proof {
        lemma_trim_range(s@);
    }
    vstd::slice::slice_subrange(s, a, b)
}

} // verus!
