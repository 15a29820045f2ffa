//! The HTTP/1.1 request message model: the request line, the header block,
//! the assembled message, and the parser that produces it from a byte buffer.
//!
//! The wire format consumed is the RFC 9112 message framing,
//! `start-line CRLF *( field-line CRLF ) CRLF [ message-body ]`, with a
//! lenient policy: only a buffer with no CR LF pair at all fails to parse.
//! A header line without a colon is dropped, a token that is not valid
//! UTF-8 degrades to the empty string, and a header block that ends without
//! a blank line still yields a message.

use crate::cursor::Cursor;
use crate::scan::{crlf_from, find_byte, find_byte_from, lemma_crlf_from, spec_trim, trim_ascii,
    COLON, SP};
use crate::text::{bytes_as_str, spec_bytes_as_str};
use vstd::prelude::*;

verus! {

/// Start of the `k`-th space-separated token of `line`, or `line.len() + 1`
/// when fewer than `k + 1` tokens exist.  Every space splits: consecutive
/// spaces produce empty tokens between them.
pub open spec fn token_start(line: Seq<u8>, k: nat) -> int
    decreases k,
{
    if k == 0 {
        0
    } else {
        let prev = token_start(line, (k - 1) as nat);
        if prev > line.len() {
            line.len() + 1int
        } else {
            let e = find_byte_from(line, SP, prev);
            if e < line.len() {
                e + 1
            } else {
                line.len() + 1int
            }
        }
    }
}

/// The `k`-th space-separated token of `line`, or the empty sequence when
/// fewer than `k + 1` tokens exist.
pub open spec fn spec_token(line: Seq<u8>, k: nat) -> Seq<u8> {
    let st = token_start(line, k);
    if st > line.len() {
        Seq::empty()
    } else {
        line.subrange(st, find_byte_from(line, SP, st))
    }
}

/// The three texts a request line decodes to: its first three
/// space-separated tokens read as UTF-8, missing tokens as empty strings.
pub open spec fn spec_start_line(line: Seq<u8>) -> (Seq<char>, Seq<char>, Seq<char>) {
    (
        spec_bytes_as_str(spec_token(line, 0)),
        spec_bytes_as_str(spec_token(line, 1)),
        spec_bytes_as_str(spec_token(line, 2)),
    )
}

/// The name/value pair a header line with a colon decodes to: the parts
/// before and after the first colon, trimmed of ASCII whitespace, read as
/// UTF-8.
pub open spec fn spec_header_pair(line: Seq<u8>) -> (Seq<char>, Seq<char>)
    recommends
        find_byte_from(line, COLON, 0) < line.len(),
{
    let d = find_byte_from(line, COLON, 0);
    (
        spec_bytes_as_str(spec_trim(line.subrange(0, d))),
        spec_bytes_as_str(spec_trim(line.subrange(d + 1, line.len() as int))),
    )
}

/// The header fields and the body offset that parsing finds from `pos` on:
/// lines are taken until a blank line (fields stop, body starts after it)
/// or until no CR LF pair remains (fields stop, body starts at `pos`,
/// covering whatever was not consumed).  A line without a colon
/// contributes no field.
pub open spec fn spec_header_section(s: Seq<u8>, pos: int) -> (Seq<(Seq<char>, Seq<char>)>, int)
    recommends
        0 <= pos <= s.len(),
    decreases s.len() - pos,
    when 0 <= pos <= s.len()
    via spec_header_section_dec
{
    let i = crlf_from(s, pos);
    if i == s.len() {
        (Seq::empty(), pos)
    } else if i == pos {
        (Seq::empty(), pos + 2)
    } else {
        let line = s.subrange(pos, i);
        let rest = spec_header_section(s, i + 2);
        if find_byte_from(line, COLON, 0) == line.len() {
            rest
        } else {
            (seq![spec_header_pair(line)] + rest.0, rest.1)
        }
    }
}

#[via_fn]
proof fn spec_header_section_dec(s: Seq<u8>, pos: int) {
    lemma_crlf_from(s, pos);
}

/// What parsing a buffer yields: nothing when the buffer holds no CR LF
/// pair, and otherwise the decoded request line, the header fields in
/// order, and the body bytes.
pub open spec fn spec_parse(data: Seq<u8>) -> Option<
    ((Seq<char>, Seq<char>, Seq<char>), Seq<(Seq<char>, Seq<char>)>, Seq<u8>),
> {
    let i = crlf_from(data, 0);
    if i == data.len() {
        None
    } else {
        let hs = spec_header_section(data, i + 2);
        Some((spec_start_line(data.subrange(0, i)), hs.0, data.subrange(hs.1, data.len() as int)))
    }
}

/// The texts of a sequence of header pairs.
pub open spec fn fields_view<'a>(fields: Seq<(&'a str, &'a str)>) -> Seq<(Seq<char>, Seq<char>)> {
    Seq::new(fields.len(), |j: int| (fields[j].0@, fields[j].1@))
}

/// Index of the first field at or after `from` whose name is `name`, or
/// the number of fields when none matches.
pub open spec fn first_match_from(
    fields: Seq<(Seq<char>, Seq<char>)>,
    name: Seq<char>,
    from: int,
) -> int
    recommends
        0 <= from,
    decreases fields.len() - from,
{
    if from >= fields.len() {
        fields.len() as int
    } else if fields[from].0 == name {
        from
    } else {
        first_match_from(fields, name, from + 1)
    }
}

/// The first field named `name`, by insertion order, or `None` when no
/// field has that name.
pub open spec fn spec_get(
    fields: Seq<(Seq<char>, Seq<char>)>,
    name: Seq<char>,
) -> Option<(Seq<char>, Seq<char>)> {
    let i = first_match_from(fields, name, 0);
    if i < fields.len() {
        Some(fields[i])
    } else {
        None
    }
}

/// The first line of a request: method, request target and protocol
/// version, as texts borrowed from the parsed buffer.
#[derive(Debug)]
pub struct StartLine<'a> {
    /// The request method, the first token of the line.
    pub method: &'a str,
    /// The request target, the second token of the line.
    pub request_target: &'a str,
    /// The protocol version, the third token of the line.
    pub http_version: &'a str,
}

impl<'a> StartLine<'a> {
    /// Splits `line` on spaces and keeps its first three tokens; missing
    /// tokens default to the empty string, extra tokens are discarded, and
    /// a token that is not valid UTF-8 degrades to the empty string.
    pub fn new(line: &'a [u8]) -> (r: Self)
        ensures
            r.method@ == spec_start_line(line@).0,
            r.request_target@ == spec_start_line(line@).1,
            r.http_version@ == spec_start_line(line@).2,
    {
        let n = line.len();
        let e0 = find_byte(line, SP, 0);
        let method = bytes_as_str(vstd::slice::slice_subrange(line, 0, e0));

        let mut s1: usize = n;
        let mut e1: usize = n;
        if e0 < n {
            s1 = e0 + 1;
            e1 = find_byte(line, SP, s1);
        }
        let request_target = bytes_as_str(vstd::slice::slice_subrange(line, s1, e1));

        let mut s2: usize = n;
        let mut e2: usize = n;
        if e0 < n && e1 < n {
            s2 = e1 + 1;
            e2 = find_byte(line, SP, s2);
        }
        let http_version = bytes_as_str(vstd::slice::slice_subrange(line, s2, e2));

        proof {
            assert(token_start(line@, 0) == 0);
            assert(spec_token(line@, 0) == line@.subrange(0, e0 as int));
            if e0 < n {
                assert(token_start(line@, 1) == s1);
                assert(spec_token(line@, 1) == line@.subrange(s1 as int, e1 as int));
            } else {
                assert(token_start(line@, 1) == n + 1);
                assert(spec_token(line@, 1) =~= line@.subrange(s1 as int, e1 as int));
            }
            if e0 < n && e1 < n {
                assert(token_start(line@, 2) == s2);
                assert(spec_token(line@, 2) == line@.subrange(s2 as int, e2 as int));
            } else {
                assert(token_start(line@, 2) == n + 1);
                assert(spec_token(line@, 2) =~= line@.subrange(s2 as int, e2 as int));
            }
        }
        Self { method, request_target, http_version }
    }
}

/// The header block: every `name: value` field of the request, in
/// insertion order, duplicates preserved.
#[derive(Debug)]
pub struct Header<'a> {
    /// The fields as (name, value) pairs, in the order they were parsed.
    pub field_lines: Vec<(&'a str, &'a str)>,
}

impl<'a> View for Header<'a> {
    type V = Seq<(Seq<char>, Seq<char>)>;

    open spec fn view(&self) -> Seq<(Seq<char>, Seq<char>)> {
        fields_view(self.field_lines@)
    }
}

impl<'a> Header<'a> {
    /// The first field named `name`, by insertion order, compared
    /// case-sensitively; `None` when no field has that name.  The result
    /// is a function of the block and the name alone, so repeated calls
    /// return the same result however they are ordered.
    pub fn get(&self, name: &str) -> (r: Option<&(&'a str, &'a str)>)
        ensures
            match r {
                Some(p) => spec_get(self@, name@) == Some((p.0@, p.1@)),
                None => spec_get(self@, name@) is None,
            },
    {
        let n = self.field_lines.len();
        let mut i: usize = 0;
        while i < n
            invariant
                0 <= i <= n,
                n == self.field_lines@.len(),
                first_match_from(self@, name@, 0) == first_match_from(self@, name@, i as int),
            decreases n - i,
        {
            let pair = &self.field_lines[i];
            if crate::text::str_eq(pair.0, name) {
                proof {
                    assert(self@[i as int] == (pair.0@, pair.1@));
                }
                return Some(pair);
            }
            proof {
                assert(self@[i as int].0 != name@);
            }
            i = i + 1;
        }
        None
    }
}

/// A parsed request: the request line, the header block, and the body
/// bytes, all borrowed from the buffer that was parsed.
pub struct HTTPMessage<'a> {
    /// The decoded request line.
    pub start_line: StartLine<'a>,
    /// The decoded header block.
    pub header: Header<'a>,
    /// Every byte after the blank line that ends the header block.
    pub body: &'a [u8],
}

/// Parses one complete HTTP/1.1 request from `data`.
///
/// Fails, returning `None`, exactly when `data` holds no CR LF pair at all,
/// so that no request line can be taken.  Otherwise the first line becomes
/// the request line, the following lines up to a blank line become the
/// header block (lines without a colon are dropped), and everything after
/// the blank line is the body.  A header block that ends without a blank
/// line still yields a message, with the unconsumed bytes as the body.
pub fn parse_http_request_message<'a>(data: &'a [u8]) -> (r: Option<HTTPMessage<'a>>)
    ensures
        r is Some <==> spec_parse(data@) is Some,
        r matches Some(m) ==> spec_parse(data@) == Some(
            (
                (m.start_line.method@, m.start_line.request_target@, m.start_line.http_version@),
                m.header@,
                m.body@,
            ),
        ),
{
    let mut cursor = Cursor::new(data);

    let first = cursor.find_next_crlf();
    let line0 = match first {
        None => {
            return None;
        },
        Some(l) => l,
    };
    proof {
        lemma_crlf_from(data@, 0);
    }
    let start_line = StartLine::new(line0);
    let ghost hdr_start: int = cursor.pos as int;

    let mut field_lines: Vec<(&'a str, &'a str)> = Vec::new();
    let mut done = false;
    proof {
        assert(fields_view(field_lines@) =~= Seq::<(Seq<char>, Seq<char>)>::empty());
    }
    while !done
        invariant
            cursor.wf(),
            cursor.inner@ == data@,
            0 <= hdr_start <= data@.len(),
            !done ==> fields_view(field_lines@) + spec_header_section(data@, cursor.pos as int).0
                == spec_header_section(data@, hdr_start).0,
            !done ==> spec_header_section(data@, cursor.pos as int).1 == spec_header_section(
                data@,
                hdr_start,
            ).1,
            done ==> fields_view(field_lines@) == spec_header_section(data@, hdr_start).0,
            done ==> cursor.pos as int == spec_header_section(data@, hdr_start).1,
        decreases data@.len() - cursor.pos, (if done { 0int } else { 1int }),
    {
        let ghost pos0: int = cursor.pos as int;
        proof {
            lemma_crlf_from(data@, pos0);
        }
        let next = cursor.find_next_crlf();
        match next {
            None => {
                proof {
                    assert(spec_header_section(data@, pos0) == (
                        Seq::<(Seq<char>, Seq<char>)>::empty(),
                        pos0,
                    ));
                    assert(fields_view(field_lines@) + Seq::<(Seq<char>, Seq<char>)>::empty()
                        =~= fields_view(field_lines@));
                }
                done = true;
            },
            Some(line) => {
                let ghost i: int = crlf_from(data@, pos0);
                if line.len() == 0 {
                    proof {
                        assert(i == pos0);
                        assert(spec_header_section(data@, pos0) == (
                            Seq::<(Seq<char>, Seq<char>)>::empty(),
                            pos0 + 2,
                        ));
                        assert(fields_view(field_lines@) + Seq::<(Seq<char>, Seq<char>)>::empty()
                            =~= fields_view(field_lines@));
                    }
                    done = true;
                } else {
                    proof {
                        assert(line@.len() == i - pos0);
                        assert(i != pos0);
                    }
                    let d = find_byte(line, COLON, 0);
                    if d < line.len() {
                        let name = bytes_as_str(trim_ascii(
                            vstd::slice::slice_subrange(line, 0, d),
                        ));
                        let value = bytes_as_str(trim_ascii(
                            vstd::slice::slice_subrange(line, d + 1, line.len()),
                        ));
                        let ghost before = field_lines@;
                        field_lines.push((name, value));
                        proof {
                            assert((name@, value@) == spec_header_pair(line@));
                            assert(fields_view(field_lines@) =~= fields_view(before).push(
                                (name@, value@),
                            ));
                            assert(spec_header_section(data@, pos0).0 == seq![
                                spec_header_pair(line@),
                            ] + spec_header_section(data@, i + 2).0);
                            assert(fields_view(field_lines@) + spec_header_section(
                                data@,
                                i + 2,
                            ).0 =~= fields_view(before) + spec_header_section(data@, pos0).0);
                        }
                    } else {
                        proof {
                            assert(spec_header_section(data@, pos0) == spec_header_section(
                                data@,
                                i + 2,
                            ));
                        }
                    }
                }
            },
        }
    }

    let body = cursor.remain();
    Some(HTTPMessage { start_line, header: Header { field_lines }, body })
}

} // verus!
