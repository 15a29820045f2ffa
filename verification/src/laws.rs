//! The laws of the parser: proof functions stating what parsing yields on
//! whole classes of inputs, proved from the specification functions that
//! the executable functions' contracts are written in.

use crate::scan::{
    crlf_from, find_byte_from, has_crlf, is_ws, lemma_crlf_from, lemma_find_byte_from,
    lemma_has_crlf, lemma_rskip_ws_upto, lemma_skip_ws_from, lemma_trim_range, rskip_ws_upto,
    skip_ws_from, spec_trim, COLON, CR, LF, SP,
};
use crate::http::{
    first_match_from, spec_get, spec_header_pair, spec_header_section, spec_parse,
    spec_start_line, spec_token,
};
use crate::text::spec_bytes_as_str;
use vstd::prelude::*;

verus! {

/// No CR LF pair anywhere in `s`.
pub open spec fn crlf_free(s: Seq<u8>) -> bool {
    forall|j: int| 0 <= j && j + 1 < s.len() ==> !(#[trigger] s[j] == CR && s[j + 1] == LF)
}

/// Every byte of `s` is ASCII whitespace.
pub open spec fn all_ws(s: Seq<u8>) -> bool {
    forall|j: int| 0 <= j < s.len() ==> is_ws(#[trigger] s[j])
}

/// When `b` occurs at `k` and nowhere earlier at or after `from`, the scan
/// from `from` finds exactly `k`.
pub proof fn lemma_find_byte_at(s: Seq<u8>, b: u8, from: int, k: int)
    requires
        0 <= from <= k < s.len(),
        s[k] == b,
        forall|j: int| from <= j < k ==> #[trigger] s[j] != b,
    ensures
        find_byte_from(s, b, from) == k,
{
    lemma_find_byte_from(s, b, from);
}

/// When `b` occurs nowhere at or after `from`, the scan from `from` finds
/// nothing and yields the length of `s`.
pub proof fn lemma_find_byte_none(s: Seq<u8>, b: u8, from: int)
    requires
        0 <= from <= s.len(),
        forall|j: int| from <= j < s.len() ==> #[trigger] s[j] != b,
    ensures
        find_byte_from(s, b, from) == s.len(),
{
    lemma_find_byte_from(s, b, from);
}

/// When a CR LF pair begins at `k` and none begins earlier at or after
/// `from`, the scan from `from` finds exactly `k`.
pub proof fn lemma_crlf_at(s: Seq<u8>, from: int, k: int)
    requires
        0 <= from <= k,
        k + 1 < s.len(),
        s[k] == CR,
        s[k + 1] == LF,
        forall|j: int| from <= j < k ==> !(#[trigger] s[j] == CR && s[j + 1] == LF),
    ensures
        crlf_from(s, from) == k,
{
    lemma_crlf_from(s, from);
}

/// Trimming removes exactly the whitespace padding around a token whose
/// own ends are not whitespace.
pub proof fn lemma_trim_padded(w1: Seq<u8>, x: Seq<u8>, w2: Seq<u8>)
    requires
        all_ws(w1),
        all_ws(w2),
        x.len() > 0 ==> !is_ws(x[0]) && !is_ws(x[x.len() - 1]),
    ensures
        spec_trim(w1 + x + w2) == x,
{
    let s = w1 + x + w2;
    lemma_skip_ws_from(s, 0);
    lemma_rskip_ws_upto(s, s.len() as int);
    let a = skip_ws_from(s, 0);
    if x.len() == 0 {
        assert(all_ws(s));
        if a < s.len() {
            assert(is_ws(s[a]));
        }
        assert(spec_trim(s) =~= x);
    } else {
        if a < w1.len() {
            assert(is_ws(s[a]));
        }
        if a > w1.len() {
            assert(is_ws(s[w1.len() as int]));
        }
        assert(a == w1.len());
        let b = rskip_ws_upto(s, s.len() as int);
        let last = w1.len() + x.len() - 1;
        if b > last + 1 {
            assert(is_ws(s[b - 1]));
        }
        if b <= last {
            assert(is_ws(s[last as int]));
        }
        assert(b == last + 1);
        assert(spec_trim(s) =~= x);
    }
}

/// LAW.  A buffer without any CR LF pair yields no message, and a buffer
/// with one always yields a message: the parse result is absent exactly
/// when no line terminator exists at all.
pub proof fn lemma_parse_absent(data: Seq<u8>)
    ensures
        spec_parse(data) is None <==> !has_crlf(data),
{
    lemma_has_crlf(data);
    lemma_crlf_from(data, 0);
}

/// LAW.  Splitting a header line built as `name ":" value`, with any ASCII
/// whitespace padding around the name and the value, yields exactly that
/// name and that value: whitespace is trimmed and nothing else changes.
/// `name` must hold no colon (the split is at the first colon) and neither
/// `name` nor `value` may itself begin or end with whitespace.
pub proof fn lemma_header_pair_round_trip(
    name: Seq<u8>,
    value: Seq<u8>,
    w1: Seq<u8>,
    w2: Seq<u8>,
    w3: Seq<u8>,
    w4: Seq<u8>,
)
    requires
        all_ws(w1),
        all_ws(w2),
        all_ws(w3),
        all_ws(w4),
        forall|j: int| 0 <= j < name.len() ==> #[trigger] name[j] != COLON,
        name.len() > 0 ==> !is_ws(name[0]) && !is_ws(name[name.len() - 1]),
        value.len() > 0 ==> !is_ws(value[0]) && !is_ws(value[value.len() - 1]),
    ensures
        ({
            let line = w1 + name + w2 + seq![COLON] + w3 + value + w4;
            spec_header_pair(line) == (spec_bytes_as_str(name), spec_bytes_as_str(value))
        }),
{
    let line = w1 + name + w2 + seq![COLON] + w3 + value + w4;
    let k = w1.len() + name.len() + w2.len();
    assert(line[k as int] == COLON);
    assert forall|j: int| 0 <= j < k implies #[trigger] line[j] != COLON by {
        if j < w1.len() {
            assert(is_ws(line[j]));
        } else if j < w1.len() + name.len() {
            assert(line[j] == name[j - w1.len()]);
        } else {
            assert(is_ws(line[j]));
        }
    }
    lemma_find_byte_at(line, COLON, 0, k as int);
    assert(line.subrange(0, k as int) =~= w1 + name + w2);
    assert(line.subrange(k as int + 1, line.len() as int) =~= w3 + value + w4);
    lemma_trim_padded(w1, name, w2);
    lemma_trim_padded(w3, value, w4);
}

/// `first_match_from` stays within bounds, lands on a field named `name`,
/// and skips no earlier such field.
pub proof fn lemma_first_match_from(
    fields: Seq<(Seq<char>, Seq<char>)>,
    name: Seq<char>,
    from: int,
)
    requires
        0 <= from <= fields.len(),
    ensures
        from <= first_match_from(fields, name, from) <= fields.len(),
        first_match_from(fields, name, from) < fields.len() ==> fields[first_match_from(
            fields,
            name,
            from,
        )].0 == name,
        forall|j: int| from <= j < first_match_from(fields, name, from)
            ==> (#[trigger] fields[j]).0 != name,
    decreases fields.len() - from,
{
    if from < fields.len() && fields[from].0 != name {
        lemma_first_match_from(fields, name, from + 1);
    }
}

/// LAW.  Lookup is a function of the block's fields and the name alone,
/// and it finds the first field with that name in insertion order: when it
/// yields a pair, that pair is a field named `name` and every earlier field
/// has another name; when it yields nothing, no field has that name.
/// Repeated lookups on one block therefore return the same result, in
/// whatever order they are made.
pub proof fn lemma_get_first_match(fields: Seq<(Seq<char>, Seq<char>)>, name: Seq<char>)
    ensures
        spec_get(fields, name) matches Some(p) ==> exists|i: int|
            0 <= i < fields.len() && #[trigger] fields[i] == p && fields[i].0 == name && (
            forall|j: int| 0 <= j < i ==> (#[trigger] fields[j]).0 != name),
        spec_get(fields, name) is None ==> forall|j: int|
            0 <= j < fields.len() ==> (#[trigger] fields[j]).0 != name,
{
    lemma_first_match_from(fields, name, 0);
    let i = first_match_from(fields, name, 0);
    if i < fields.len() {
        assert(fields[i] == spec_get(fields, name)->Some_0);
    }
}

/// A request-line token: free of the space that separates tokens and of
/// the bytes that end a line.
pub open spec fn clean_token(t: Seq<u8>) -> bool {
    forall|j: int| 0 <= j < t.len() ==> #[trigger] t[j] != SP && t[j] != CR && t[j] != LF
}

/// Header lines as they stand on the wire: each line followed by CR LF.
pub open spec fn field_section(lines: Seq<Seq<u8>>) -> Seq<u8>
    decreases lines.len(),
{
    if lines.len() == 0 {
        Seq::empty()
    } else {
        lines[0] + seq![CR, LF] + field_section(lines.drop_first())
    }
}

/// The header fields that a sequence of lines contributes: each line with
/// a colon becomes its name/value pair, in order; a line without a colon
/// contributes nothing.
pub open spec fn fields_of_lines(lines: Seq<Seq<u8>>) -> Seq<(Seq<char>, Seq<char>)>
    decreases lines.len(),
{
    if lines.len() == 0 {
        Seq::empty()
    } else {
        let rest = fields_of_lines(lines.drop_first());
        if find_byte_from(lines[0], COLON, 0) == lines[0].len() {
            rest
        } else {
            seq![spec_header_pair(lines[0])] + rest
        }
    }
}

/// Header lines that line scanning can hand back: non-empty (an empty line
/// would end the block) and without a CR LF pair of their own.
pub open spec fn wf_header_lines(lines: Seq<Seq<u8>>) -> bool {
    forall|k: int| 0 <= k < lines.len() ==> (#[trigger] lines[k]).len() > 0 && crlf_free(lines[k])
}

/// Scanning a buffer whose suffix at `pos` is a well-formed header block —
/// the lines each followed by CR LF, then a blank line, then the body —
/// yields exactly the pairs of the colon-bearing lines, in order, and
/// places the body right after the blank line.
pub proof fn lemma_header_section_of(s: Seq<u8>, pos: int, lines: Seq<Seq<u8>>, body: Seq<u8>)
    requires
        wf_header_lines(lines),
        0 <= pos <= s.len(),
        s.subrange(pos, s.len() as int) == field_section(lines) + seq![CR, LF] + body,
    ensures
        spec_header_section(s, pos).0 == fields_of_lines(lines),
        spec_header_section(s, pos).1 == pos + field_section(lines).len() + 2,
    decreases lines.len(),
{
    let suffix = field_section(lines) + seq![CR, LF] + body;
    assert(s.len() - pos == suffix.len());
    if lines.len() == 0 {
        assert(field_section(lines) =~= Seq::<u8>::empty());
        assert(suffix[0] == CR && suffix[1] == LF);
        assert(s[pos] == CR && s[pos + 1] == LF) by {
            assert(s.subrange(pos, s.len() as int)[0] == suffix[0]);
            assert(s.subrange(pos, s.len() as int)[1] == suffix[1]);
        }
        assert(crlf_from(s, pos) == pos);
    } else {
        let l0 = lines[0];
        let tail = field_section(lines.drop_first()) + seq![CR, LF] + body;
        assert(l0.len() > 0 && crlf_free(l0));
        assert(field_section(lines) == l0 + seq![CR, LF] + field_section(lines.drop_first()));
        assert(suffix =~= l0 + seq![CR, LF] + tail);
        let k = pos + l0.len();
        assert forall|j: int| pos <= j < s.len() implies s[j] == suffix[j - pos] by {
            assert(s.subrange(pos, s.len() as int)[j - pos] == suffix[j - pos]);
        }
        assert(s[k] == CR && s[k + 1] == LF);
        assert forall|j: int| pos <= j < k implies !(#[trigger] s[j] == CR && s[j + 1] == LF) by {
            assert(s[j] == l0[j - pos]);
            if j + 1 < k {
                assert(s[j + 1] == l0[j + 1 - pos]);
            } else {
                assert(s[j + 1] == CR);
            }
        }
        lemma_crlf_at(s, pos, k);
        assert(s.subrange(pos, k) =~= l0);
        assert(s.subrange(k + 2, s.len() as int) =~= tail);
        assert(wf_header_lines(lines.drop_first())) by {
            assert forall|m: int| 0 <= m < lines.drop_first().len() implies (#[trigger] lines.drop_first()[m]).len() > 0
                && crlf_free(lines.drop_first()[m]) by {
                assert(lines.drop_first()[m] == lines[m + 1]);
            }
        }
        lemma_header_section_of(s, k + 2, lines.drop_first(), body);
        assert(field_section(lines).len() == l0.len() + 2 + field_section(
            lines.drop_first(),
        ).len());
    }
}

/// The tokens of a request line built from three clean tokens separated by
/// single spaces are exactly those tokens.
pub proof fn lemma_request_line_tokens(method: Seq<u8>, target: Seq<u8>, version: Seq<u8>)
    requires
        clean_token(method),
        clean_token(target),
        clean_token(version),
    ensures
        ({
            let line = method + seq![SP] + target + seq![SP] + version;
            spec_token(line, 0) == method && spec_token(line, 1) == target && spec_token(line, 2)
                == version
        }),
{
    let line = method + seq![SP] + target + seq![SP] + version;
    let m = method.len() as int;
    let t = target.len() as int;
    let v = version.len() as int;
    assert(line.len() == m + t + v + 2);
    assert(line[m] == SP);
    assert(line[m + 1 + t] == SP);
    assert forall|j: int| 0 <= j < m implies #[trigger] line[j] != SP by {
        assert(line[j] == method[j]);
    }
    lemma_find_byte_at(line, SP, 0, m);
    assert(spec_token(line, 0) =~= method);

    assert forall|j: int| m + 1 <= j < m + 1 + t implies #[trigger] line[j] != SP by {
        assert(line[j] == target[j - (m + 1)]);
    }
    lemma_find_byte_at(line, SP, m + 1, m + 1 + t);
    assert(crate::http::token_start(line, 1) == m + 1);
    assert(spec_token(line, 1) =~= target);

    assert forall|j: int| m + t + 2 <= j < line.len() implies #[trigger] line[j] != SP by {
        assert(line[j] == version[j - (m + t + 2)]);
    }
    lemma_find_byte_none(line, SP, m + t + 2);
    assert(crate::http::token_start(line, 2) == m + t + 2);
    assert(spec_token(line, 2) =~= version);
}

/// LAW.  A well-formed request — a request line of three clean tokens
/// separated by single spaces, then CR LF, then any well-formed header
/// lines, then a blank line, then any body — parses to a message whose
/// request-line fields are exactly those tokens read as text, whose header
/// fields are exactly the pairs of the colon-bearing lines in order, and
/// whose body is exactly the trailing bytes.
pub proof fn lemma_parse_well_formed(
    method: Seq<u8>,
    target: Seq<u8>,
    version: Seq<u8>,
    lines: Seq<Seq<u8>>,
    body: Seq<u8>,
)
    requires
        clean_token(method),
        clean_token(target),
        clean_token(version),
        wf_header_lines(lines),
    ensures
        ({
            let line = method + seq![SP] + target + seq![SP] + version;
            let input = line + seq![CR, LF] + field_section(lines) + seq![CR, LF] + body;
            spec_parse(input) == Some(
                (
                    (
                        spec_bytes_as_str(method),
                        spec_bytes_as_str(target),
                        spec_bytes_as_str(version),
                    ),
                    fields_of_lines(lines),
                    body,
                ),
            )
        }),
{
    let line = method + seq![SP] + target + seq![SP] + version;
    let input = line + seq![CR, LF] + field_section(lines) + seq![CR, LF] + body;
    let n = line.len() as int;
    assert forall|j: int| 0 <= j < n implies #[trigger] line[j] != CR by {
        let m = method.len() as int;
        let t = target.len() as int;
        if j < m {
            assert(line[j] == method[j]);
        } else if j == m {
            assert(line[j] == SP);
        } else if j < m + 1 + t {
            assert(line[j] == target[j - (m + 1)]);
        } else if j == m + 1 + t {
            assert(line[j] == SP);
        } else {
            assert(line[j] == version[j - (m + t + 2)]);
        }
    }
    assert(input[n] == CR && input[n + 1] == LF);
    assert forall|j: int| 0 <= j < n implies !(#[trigger] input[j] == CR && input[j + 1] == LF) by {
        assert(input[j] == line[j]);
    }
    lemma_crlf_at(input, 0, n);
    assert(input.subrange(0, n) =~= line);
    lemma_request_line_tokens(method, target, version);
    assert(input.subrange(n + 2, input.len() as int) =~= field_section(lines) + seq![CR, LF]
        + body);
    lemma_header_section_of(input, n + 2, lines, body);
    let bstart = n + 2 + field_section(lines).len() + 2;
    assert(input.subrange(bstart as int, input.len() as int) =~= body);
}

} // verus!
