//! The request parser: turns a complete request byte buffer into a
//! `Request` or a parse failure, exactly as `spec_parse_http` reads it.

use vstd::prelude::*;

verus! {

use crate::bytes::{
    ascii,
    bytes_eq,
    dec_parses,
    dec_val,
    find_from,
    find_pair_from,
    is_space,
    is_space_byte,
    lemma_find_from,
    lemma_find_from_is,
    lemma_find_pair_from_is,
    lemma_tokens_skip_space,
    lemma_tokens_step,
    parse_dec,
    tokens,
    lit_bytes,
    CR,
    LF,
    SP,
    COLON,
};
use crate::http::{Headers, Method, Request, RequestModel};

/// Why a request buffer could not be read.
#[derive(Clone, Copy, Debug, PartialEq, Eq, Structural)]
pub enum ParseError {
    /// The request line did not hold exactly three tokens.
    MalformedRequestLine,
    /// The method token is neither `GET` nor `POST`.
    UnsupportedMethod,
    /// A header line holds no `": "` separator.
    MalformedHeaderLine,
    /// The `Content-Length` value is not a plain in-range numeral.
    InvalidContentLength,
    /// The buffer ends before the declared body does.
    UnexpectedEnd,
}

/// The line starting at `from`: the bytes before the next LF, with one
/// trailing CR removed.
pub open spec fn line_at(s: Seq<u8>, from: int) -> Seq<u8> {
    let raw = s.subrange(from, find_from(s, LF, from));
    if raw.len() > 0 && raw.last() == CR {
        raw.drop_last()
    } else {
        raw
    }
}

/// The position just past the line starting at `from`.
pub open spec fn next_line_start(s: Seq<u8>, from: int) -> int {
    let e = find_from(s, LF, from);
    if e < s.len() {
        e + 1
    } else {
        e
    }
}

/// The method a request-line token denotes, if any.
pub open spec fn spec_method(t: Seq<u8>) -> Option<Method> {
    if t == ascii("GET"@) {
        Some(Method::GET)
    } else if t == ascii("POST"@) {
        Some(Method::POST)
    } else {
        None
    }
}

/// Reads header lines from `from` on, newest value winning, until an
/// empty line or the end of the buffer; yields the headers seen so far
/// together with the position just past the empty line.
pub open spec fn spec_parse_headers(s: Seq<u8>, from: int, acc: Map<Seq<u8>, Seq<u8>>) -> Result<
    (Map<Seq<u8>, Seq<u8>>, int),
    ParseError,
>
    decreases s.len() - from,
    via spec_parse_headers_decreases
{
    if from < 0 || from >= s.len() {
        Ok((acc, s.len() as int))
    } else {
        let line = line_at(s, from);
        let next = next_line_start(s, from);
        if line.len() == 0 {
            Ok((acc, next))
        } else {
            let sep = find_pair_from(line, COLON, SP, 0);
            if sep >= line.len() {
                Err(ParseError::MalformedHeaderLine)
            } else {
                spec_parse_headers(s, next, acc.insert(line.take(sep), line.skip(sep + 2)))
            }
        }
    }
}

#[via_fn]
proof fn spec_parse_headers_decreases(s: Seq<u8>, from: int, acc: Map<Seq<u8>, Seq<u8>>) {
    if 0 <= from < s.len() {
        lemma_find_from(s, LF, from);
    }
}

/// How a whole request buffer reads: the request line, the headers, and
/// a body of exactly `Content-Length` bytes when that header is present.
pub open spec fn spec_parse_http(s: Seq<u8>) -> Result<RequestModel, ParseError> {
    let ts = tokens(line_at(s, 0));
    if ts.len() != 3 {
        Err(ParseError::MalformedRequestLine)
    } else {
        match spec_method(ts[0]) {
            None => Err(ParseError::UnsupportedMethod),
            Some(m) => match spec_parse_headers(s, next_line_start(s, 0), Map::empty()) {
                Err(e) => Err(e),
                Ok((hs, body_start)) => {
                    if !hs.contains_key(ascii("Content-Length"@)) {
                        Ok(
                            RequestModel {
                                method: m,
                                path: ts[1],
                                version: ts[2],
                                headers: hs,
                                body: None,
                            },
                        )
                    } else if !dec_parses(hs[ascii("Content-Length"@)]) {
                        Err(ParseError::InvalidContentLength)
                    } else if s.len() - body_start < dec_val(hs[ascii("Content-Length"@)]) {
                        Err(ParseError::UnexpectedEnd)
                    } else {
                        Ok(
                            RequestModel {
                                method: m,
                                path: ts[1],
                                version: ts[2],
                                headers: hs,
                                body: Some(
                                    s.subrange(
                                        body_start,
                                        body_start + dec_val(hs[ascii("Content-Length"@)]),
                                    ),
                                ),
                            },
                        )
                    }
                },
            },
        }
    }
}

/// A request line without exactly three tokens is rejected.
pub proof fn lemma_rejects_bad_request_line(s: Seq<u8>)
    requires
        tokens(line_at(s, 0)).len() != 3,
    ensures
        spec_parse_http(s) == Err::<RequestModel, _>(ParseError::MalformedRequestLine),
{
}

/// A request line whose method token is neither `GET` nor `POST` is
/// rejected.
pub proof fn lemma_rejects_unsupported_method(s: Seq<u8>)
    requires
        tokens(line_at(s, 0)).len() == 3,
        spec_method(tokens(line_at(s, 0))[0]) is None,
    ensures
        spec_parse_http(s) == Err::<RequestModel, _>(ParseError::UnsupportedMethod),
{
}

/// `PUT` in particular is no supported method.
pub proof fn lemma_put_unsupported()
    ensures
        spec_method(ascii("PUT"@)) is None,
{
    reveal_strlit("PUT");
    reveal_strlit("GET");
    reveal_strlit("POST");
    assert(ascii("PUT"@).len() == 3 && ascii("POST"@).len() == 4);
    assert(ascii("PUT"@)[0] == 80 && ascii("GET"@)[0] == 71);
}

/// A non-empty header line without a `": "` separator is rejected.
pub proof fn lemma_rejects_bad_header_line(s: Seq<u8>, from: int, acc: Map<Seq<u8>, Seq<u8>>)
    requires
        0 <= from < s.len(),
        line_at(s, from).len() > 0,
        find_pair_from(line_at(s, from), COLON, SP, 0) >= line_at(s, from).len(),
    ensures
        spec_parse_headers(s, from, acc) == Err::<(Map<Seq<u8>, Seq<u8>>, int), _>(
            ParseError::MalformedHeaderLine,
        ),
{
}

/// Index of the first occurrence of `b` at or after `from`, or the
/// slice's length.
#[verifier::loop_isolation(false)]
pub fn find_byte(s: &[u8], b: u8, from: usize) -> (r: usize)
    requires
        from <= s@.len(),
    ensures
        r == find_from(s@, b, from as int),
        from <= r <= s@.len(),
        r < s@.len() ==> s@[r as int] == b,
{
    let mut i = from;
    while i < s.len()
        invariant
            from <= i <= s@.len(),
            forall|j: int| from <= j < i ==> s@[j] != b,
        decreases s@.len() - i,
    {
        if s[i] == b {
            proof {
                lemma_find_from_is(s@, b, from as int, i as int);
            }
            return i;
        }
        i += 1;
    }
    proof {
        lemma_find_from_is(s@, b, from as int, s@.len() as int);
    }
    s.len()
}

/// Index of the first adjacent occurrence of `a`, `c` at or after `from`,
/// or the slice's length.
#[verifier::loop_isolation(false)]
pub fn find_pair(s: &[u8], a: u8, c: u8, from: usize) -> (r: usize)
    requires
        from <= s@.len(),
    ensures
        r == find_pair_from(s@, a, c, from as int),
        from <= r <= s@.len(),
        r < s@.len() ==> r + 1 < s@.len() && s@[r as int] == a && s@[r + 1] == c,
{
    let mut i = from;
    while i < s.len()
        invariant
            from <= i <= s@.len(),
            forall|j: int|
                from <= j < i && j + 1 < s@.len() ==> !(#[trigger] s@[j] == a && s@[j + 1] == c),
        decreases s@.len() - i,
    {
        if i + 1 >= s.len() {
            proof {
                lemma_find_pair_from_is(s@, a, c, from as int, s@.len() as int);
            }
            return s.len();
        }
        if s[i] == a && s[i + 1] == c {
            proof {
                lemma_find_pair_from_is(s@, a, c, from as int, i as int);
            }
            return i;
        }
        i += 1;
    }
    proof {
        lemma_find_pair_from_is(s@, a, c, from as int, s@.len() as int);
    }
    s.len()
}

/// The whitespace-separated tokens of a line, in order.
#[verifier::loop_isolation(false)]
fn tokenize(line: &[u8]) -> (r: Vec<Vec<u8>>)
    ensures
        r.deep_view() == tokens(line@),
{
    let mut toks: Vec<Vec<u8>> = Vec::new();
    let mut i: usize = 0;
    proof {
        assert(line@.skip(0) =~= line@);
    }
    while i < line.len()
        invariant
            i <= line@.len(),
            tokens(line@) == toks.deep_view() + tokens(line@.skip(i as int)),
        decreases line@.len() - i,
    {
        if is_space_byte(line[i]) {
            proof {
                lemma_tokens_skip_space(line@, i as int);
            }
            i += 1;
        } else {
            let mut j = i + 1;
            while j < line.len() && !is_space_byte(line[j])
                invariant
                    i < j <= line@.len(),
                    forall|k: int| i <= k < j ==> !is_space(line@[k]),
                decreases line@.len() - j,
            {
                j += 1;
            }
            let tok = vstd::slice::slice_to_vec(vstd::slice::slice_subrange(line, i, j));
            let ghost before = toks.deep_view();
            toks.push(tok);
            proof {
                lemma_tokens_step(line@, i as int, j as int);
                assert(toks.deep_view() =~~= before.push(line@.subrange(i as int, j as int)));
                assert(toks.deep_view() + tokens(line@.skip(j as int)) =~~= before + (seq![
                    line@.subrange(i as int, j as int),
                ] + tokens(line@.skip(j as int))));
            }
            i = j;
        }
    }
    proof {
        assert(line@.skip(line@.len() as int) =~= Seq::<u8>::empty());
        assert(toks.deep_view() + tokens(line@.skip(line@.len() as int)) =~~= toks.deep_view());
    }
    toks
}

/// Reads header lines into `headers` from `pos` on; on success the
/// result is the position where the body begins.
fn parse_headers_into(input: &[u8], pos: usize, headers: &mut Headers) -> (r: Result<
    usize,
    ParseError,
>)
    requires
        pos <= input@.len(),
    ensures
        match r {
            Ok(body_start) => spec_parse_headers(input@, pos as int, old(headers)@) == Ok::<
                _,
                ParseError,
            >((final(headers)@, body_start as int)) && body_start <= input@.len(),
            Err(e) => spec_parse_headers(input@, pos as int, old(headers)@) == Err::<
                (Map<Seq<u8>, Seq<u8>>, int),
                _,
            >(e),
        },
    decreases input@.len() - pos,
{
    if pos >= input.len() {
        return Ok(input.len());
    }
    let e = find_byte(input, LF, pos);
    let se = if e > pos && input[e - 1] == CR {
        e - 1
    } else {
        e
    };
    let line = vstd::slice::slice_subrange(input, pos, se);
    proof {
        if se < e {
            assert(input@.subrange(pos as int, e as int).last() == input@[e - 1]);
            assert(input@.subrange(pos as int, e as int).drop_last() =~= input@.subrange(
                pos as int,
                se as int,
            ));
        } else {
            assert(input@.subrange(pos as int, e as int).len() > 0 ==> input@.subrange(
                pos as int,
                e as int,
            ).last() == input@[e - 1]);
        }
        assert(line@ == line_at(input@, pos as int));
    }
    let next = if e < input.len() {
        e + 1
    } else {
        e
    };
    if line.len() == 0 {
        return Ok(next);
    }
    let sep = find_pair(line, COLON, SP, 0);
    if sep >= line.len() {
        return Err(ParseError::MalformedHeaderLine);
    }
    let name = vstd::slice::slice_to_vec(vstd::slice::slice_subrange(line, 0, sep));
    let value = vstd::slice::slice_to_vec(vstd::slice::slice_subrange(line, sep + 2, line.len()));
    proof {
        assert(name@ =~= line_at(input@, pos as int).take(sep as int));
        assert(value@ =~= line_at(input@, pos as int).skip(sep + 2));
    }
    headers.insert(name, value);
    parse_headers_into(input, next, headers)
}

/// Parses one complete request buffer.
///
/// The buffer must hold the whole request: the request line, the header
/// lines up to their empty-line sentinel (or the end of the buffer), and
/// at least `Content-Length` bytes of body. Trailing bytes beyond the
/// declared body are ignored.
pub fn parse_http(input: &[u8]) -> (r: Result<Request, ParseError>)
    ensures
        r matches Ok(req) ==> spec_parse_http(input@) == Ok::<_, ParseError>(req@),
        r matches Err(e) ==> spec_parse_http(input@) == Err::<RequestModel, _>(e),
{
    let e = find_byte(input, LF, 0);
    let se = if e > 0 && input[e - 1] == CR {
        e - 1
    } else {
        e
    };
    let line = vstd::slice::slice_subrange(input, 0, se);
    proof {
        if se < e {
            assert(input@.subrange(0, e as int).last() == input@[e - 1]);
            assert(input@.subrange(0, e as int).drop_last() =~= input@.subrange(0, se as int));
        } else {
            assert(input@.subrange(0, e as int).len() > 0 ==> input@.subrange(0, e as int).last()
                == input@[e - 1]);
        }
        assert(line@ == line_at(input@, 0));
    }
    let mut toks = tokenize(line);
    if toks.len() != 3 {
        assert(tokens(line_at(input@, 0)).len() != 3);
        return Err(ParseError::MalformedRequestLine);
    }
    proof {
        reveal_strlit("GET");
        reveal_strlit("POST");
        assert("GET".is_ascii());
        assert("POST".is_ascii());
    }
    let version = toks.pop().unwrap();
    let path = toks.pop().unwrap();
    let mtok = toks.pop().unwrap();
    proof {
        assert(mtok.deep_view() == tokens(line@)[0]);
        assert(path.deep_view() == tokens(line@)[1]);
        assert(version.deep_view() == tokens(line@)[2]);
        assert(mtok.deep_view() =~= mtok@);
        assert(path.deep_view() =~= path@);
        assert(version.deep_view() =~= version@);
    }
    let method: Method = if bytes_eq(mtok.as_slice(), lit_bytes("GET")) {
        Method::GET
    } else if bytes_eq(mtok.as_slice(), lit_bytes("POST")) {
        Method::POST
    } else {
        assert(spec_method(tokens(line_at(input@, 0))[0]) is None);
        return Err(ParseError::UnsupportedMethod);
    };
    let next = if e < input.len() {
        e + 1
    } else {
        e
    };
    let mut headers = Headers::new();
    let body_start = match parse_headers_into(input, next, &mut headers) {
        Ok(p) => p,
        Err(err) => {
            return Err(err);
        },
    };
    proof {
        reveal_strlit("Content-Length");
        assert("Content-Length".is_ascii());
    }
    let body: Option<Vec<u8>> = match headers.get(lit_bytes("Content-Length")) {
        None => None,
        Some(v) => {
            match parse_dec(v.as_slice()) {
                None => {
                    return Err(ParseError::InvalidContentLength);
                },
                Some(n) => {
                    if input.len() - body_start < n {
                        return Err(ParseError::UnexpectedEnd);
                    }
                    Some(
                        vstd::slice::slice_to_vec(
                            vstd::slice::slice_subrange(input, body_start, body_start + n),
                        ),
                    )
                },
            }
        },
    };
    let req = Request { method, path, version, headers, body };
    proof {
        let m = spec_parse_http(input@);
        assert(m matches Ok(mm) && req@ == mm) by {
            assert(req@ =~~= m->Ok_0);
        }
    }
    Ok(req)
}

} // verus!
