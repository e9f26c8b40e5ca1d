//! The response serializer: the exact bytes a `Response` puts on the
//! wire, with `Content-Length` computed after any compression.

use vstd::prelude::*;

verus! {

use crate::bytes::{
    all_digits,
    ascii,
    dec_rep,
    dec_val,
    extend_bytes,
    extend_lit,
    find_from,
    is_digit,
    lemma_dec_rep,
    lemma_find_from_is,
    push_dec,
    CR,
    LF,
    SP,
};
use crate::gzip::gunzip;
use crate::http::{version_wf, ContentType, Encoding, Response, ResponseModel, Status};

/// The fixed code-and-reason text of each status.
pub open spec fn status_token(status: Status) -> Seq<u8> {
    match status {
        Status::Okay => ascii("200 OK"@),
        Status::Created => ascii("201 Created"@),
        Status::InternalServerError => ascii("500 Internal Server Error"@),
        Status::NotFound => ascii("404 Not Found"@),
    }
}

/// The code-and-reason wire text is the decimal of `code` followed by
/// one space and the ASCII of `message`.
pub proof fn lemma_status_token_parts(status: Status)
    ensures
        status_token(status) == dec_rep(status.spec_code() as nat) + ascii(" "@) + ascii(
            status.spec_message(),
        ),
{
    reveal_strlit(" ");
    reveal_strlit("200 OK");
    reveal_strlit("201 Created");
    reveal_strlit("404 Not Found");
    reveal_strlit("500 Internal Server Error");
    reveal_strlit("OK");
    reveal_strlit("Created");
    reveal_strlit("Not Found");
    reveal_strlit("Internal Server Error");
    assert(dec_rep(2) =~= seq![50u8]);
    assert(dec_rep(4) =~= seq![52u8]);
    assert(dec_rep(5) =~= seq![53u8]);
    assert(dec_rep(20) =~= seq![50u8, 48u8]);
    assert(dec_rep(40) =~= seq![52u8, 48u8]);
    assert(dec_rep(50) =~= seq![53u8, 48u8]);
    assert(dec_rep(200) =~= seq![50u8, 48u8, 48u8]);
    assert(dec_rep(201) =~= seq![50u8, 48u8, 49u8]);
    assert(dec_rep(404) =~= seq![52u8, 48u8, 52u8]);
    assert(dec_rep(500) =~= seq![53u8, 48u8, 48u8]);
    match status {
        Status::Okay => {
            assert(status_token(status) =~= dec_rep(200) + ascii(" "@) + ascii("OK"@));
        },
        Status::Created => {
            assert(status_token(status) =~= dec_rep(201) + ascii(" "@) + ascii("Created"@));
        },
        Status::NotFound => {
            assert(status_token(status) =~= dec_rep(404) + ascii(" "@) + ascii("Not Found"@));
        },
        Status::InternalServerError => {
            assert(status_token(status) =~= dec_rep(500) + ascii(" "@) + ascii(
                "Internal Server Error"@,
            ));
        },
    }
}

/// The bytes of a status line: the version token, the code and reason,
/// and CRLF.
pub open spec fn status_line(version: Seq<u8>, status: Status) -> Seq<u8> {
    version + ascii(" "@) + status_token(status) + ascii("\r\n"@)
}

/// The label written after `Content-Type: `.
pub open spec fn content_type_bytes(ct: ContentType) -> Seq<u8> {
    ascii(ct.spec_label())
}

/// A full response with body framing around `payload`; the
/// `Content-Encoding` line is present exactly when `gzipped`.
pub open spec fn framed_wire(m: ResponseModel, payload: Seq<u8>, gzipped: bool) -> Seq<u8> {
    status_line(m.version, m.status) + (if gzipped {
        ascii("Content-Encoding: gzip\r\n"@)
    } else {
        Seq::<u8>::empty()
    }) + ascii("Content-Type: "@) + content_type_bytes(m.content_type.unwrap()) + ascii("\r\n"@)
        + ascii("Content-Length: "@) + dec_rep(payload.len()) + ascii("\r\n"@) + ascii("\r\n"@)
        + payload
}

/// A response without body framing: the status line and a blank line.
pub open spec fn bare_wire(m: ResponseModel) -> Seq<u8> {
    status_line(m.version, m.status) + ascii("\r\n"@)
}

/// Appends the code-and-reason text of `status`.
fn push_status_token(out: &mut Vec<u8>, status: &Status)
    ensures
        final(out)@ == old(out)@ + status_token(*status),
{
    proof {
        reveal_strlit("200 OK");
        reveal_strlit("201 Created");
        reveal_strlit("500 Internal Server Error");
        reveal_strlit("404 Not Found");
    }
    match status {
        Status::Okay => extend_lit(out, "200 OK"),
        Status::Created => extend_lit(out, "201 Created"),
        Status::InternalServerError => extend_lit(out, "500 Internal Server Error"),
        Status::NotFound => extend_lit(out, "404 Not Found"),
    }
}

/// Appends `Content-Type`, `Content-Length`, the blank line, and the
/// payload itself.
fn push_framing(out: &mut Vec<u8>, ct: &ContentType, payload: &Vec<u8>)
    ensures
        final(out)@ == old(out)@ + ascii("Content-Type: "@) + content_type_bytes(*ct) + ascii(
            "\r\n"@,
        ) + ascii("Content-Length: "@) + dec_rep(payload@.len()) + ascii("\r\n"@) + ascii("\r\n"@)
            + payload@,
{
    proof {
        reveal_strlit("Content-Type: ");
        reveal_strlit("text/plain");
        reveal_strlit("application/octet-stream");
        reveal_strlit("Content-Length: ");
        reveal_strlit("\r\n");
    }
    extend_lit(out, "Content-Type: ");
    match ct {
        ContentType::Text => extend_lit(out, "text/plain"),
        ContentType::Application => extend_lit(out, "application/octet-stream"),
    }
    extend_lit(out, "\r\n");
    extend_lit(out, "Content-Length: ");
    push_dec(out, payload.len());
    extend_lit(out, "\r\n");
    extend_lit(out, "\r\n");
    extend_bytes(out, payload.as_slice());
}

impl Response {
    /// Serializes the response. The status line always comes first; when
    /// both a content type and a body are present the framing headers
    /// follow, the body compressed first when gzip was negotiated;
    /// otherwise a single blank line ends the message.
    pub fn as_bytes(&self) -> (r: Vec<u8>)
        ensures
            self@.content_type is None || self@.body is None ==> r@ == bare_wire(self@),
            self@.content_type is Some && self@.body is Some && self@.content_encoding is None
                ==> r@ == framed_wire(self@, self@.body.unwrap(), false),
            self@.content_type is Some && self@.body is Some && self@.content_encoding is Some
                ==> exists|c: Seq<u8>|
                gunzip(c) == Some(self@.body.unwrap()) && r@ == framed_wire(self@, c, true),
    {
        let mut out: Vec<u8> = Vec::new();
        proof {
            reveal_strlit(" ");
            reveal_strlit("\r\n");
            reveal_strlit("Content-Encoding: gzip\r\n");
        }
        extend_bytes(&mut out, self.version.as_slice());
        extend_lit(&mut out, " ");
        push_status_token(&mut out, &self.status);
        extend_lit(&mut out, "\r\n");
        proof {
            assert(out@ =~= status_line(self@.version, self@.status));
        }
        let ghost sl = out@;
        match (&self.content_type, &self.body) {
            (Some(ct), Some(body)) => {
                match &self.content_encoding {
                    Some(Encoding::Gzip) => {
                        let compressed = crate::gzip::gzip_compress(body.as_slice());
                        extend_lit(&mut out, "Content-Encoding: gzip\r\n");
                        push_framing(&mut out, ct, &compressed);
                        proof {
                            assert(out@ =~= framed_wire(self@, compressed@, true));
                            assert(gunzip(compressed@) == Some(self@.body.unwrap()));
                        }
                        out
                    },
                    None => {
                        push_framing(&mut out, ct, body);
                        proof {
                            assert(out@ =~= sl + Seq::<u8>::empty() + ascii("Content-Type: "@)
                                + content_type_bytes(self@.content_type.unwrap()) + ascii("\r\n"@)
                                + ascii("Content-Length: "@) + dec_rep(self@.body.unwrap().len())
                                + ascii("\r\n"@) + ascii("\r\n"@) + self@.body.unwrap());
                        }
                        out
                    },
                }
            },
            _ => {
                extend_lit(&mut out, "\r\n");
                proof {
                    assert(out@ =~= bare_wire(self@));
                }
                out
            },
        }
    }
}

/// Splits a CRLF-terminated line off the front of `s`.
pub open spec fn crlf_line(s: Seq<u8>) -> Option<(Seq<u8>, Seq<u8>)> {
    let e = find_from(s, LF, 0);
    if 1 <= e < s.len() && s[e - 1] == CR {
        Some((s.subrange(0, e - 1), s.skip(e + 1)))
    } else {
        None
    }
}

/// An LF-free line followed by CRLF splits back into line and rest.
pub proof fn lemma_crlf_line(line: Seq<u8>, rest: Seq<u8>)
    requires
        forall|i: int| 0 <= i < line.len() ==> #[trigger] line[i] != LF,
    ensures
        crlf_line(line + ascii("\r\n"@) + rest) == Some((line, rest)),
{
    reveal_strlit("\r\n");
    let s = line + ascii("\r\n"@) + rest;
    assert(ascii("\r\n"@).len() == 2);
    assert(ascii("\r\n"@)[0] == CR && ascii("\r\n"@)[1] == LF);
    assert(s[line.len() as int] == CR);
    assert(s[line.len() as int + 1] == LF);
    assert forall|j: int| 0 <= j < line.len() + 1 implies s[j] != LF by {
        if j < line.len() {
            assert(s[j] == line[j]);
        }
    }
    lemma_find_from_is(s, LF, 0, line.len() as int + 1);
    assert(s.subrange(0, line.len() as int) =~= line);
    assert(s.skip(line.len() as int + 2) =~= rest);
}

/// Reads a status line back: the version token up to the first space,
/// then one of the four fixed code-and-reason texts.
pub open spec fn parse_status_line(line: Seq<u8>) -> Option<(Seq<u8>, Status)> {
    let sp = find_from(line, SP, 0);
    if sp >= line.len() {
        None
    } else {
        let version = line.take(sp);
        let tail = line.skip(sp + 1);
        if tail == status_token(Status::Okay) {
            Some((version, Status::Okay))
        } else if tail == status_token(Status::Created) {
            Some((version, Status::Created))
        } else if tail == status_token(Status::NotFound) {
            Some((version, Status::NotFound))
        } else if tail == status_token(Status::InternalServerError) {
            Some((version, Status::InternalServerError))
        } else {
            None
        }
    }
}

/// Reads the `Content-Type` and `Content-Length` lines, the blank line,
/// and a body of exactly the declared length.
pub open spec fn parse_framing(
    version: Seq<u8>,
    status: Status,
    enc: Option<Encoding>,
    ct_line: Seq<u8>,
    rest: Seq<u8>,
) -> Option<ResponseModel> {
    if !ascii("Content-Type: "@).is_prefix_of(ct_line) {
        None
    } else {
        let label = ct_line.skip(ascii("Content-Type: "@).len() as int);
        if label != content_type_bytes(ContentType::Text) && label != content_type_bytes(
            ContentType::Application,
        ) {
            None
        } else {
            let ct = if label == content_type_bytes(ContentType::Text) {
                ContentType::Text
            } else {
                ContentType::Application
            };
            match crlf_line(rest) {
                None => None,
                Some((cl_line, rest2)) => {
                    if !ascii("Content-Length: "@).is_prefix_of(cl_line) {
                        None
                    } else {
                        let num = cl_line.skip(ascii("Content-Length: "@).len() as int);
                        if !(num.len() > 0 && all_digits(num)) {
                            None
                        } else {
                            match crlf_line(rest2) {
                                None => None,
                                Some((blank, body)) => {
                                    if blank.len() == 0 && body.len() == dec_val(num) {
                                        Some(
                                            ResponseModel {
                                                status,
                                                content_encoding: enc,
                                                content_type: Some(ct),
                                                version,
                                                body: Some(body),
                                            },
                                        )
                                    } else {
                                        None
                                    }
                                },
                            }
                        }
                    }
                },
            }
        }
    }
}

/// Reads a whole serialized response back.
pub open spec fn spec_parse_response(s: Seq<u8>) -> Option<ResponseModel> {
    match crlf_line(s) {
        None => None,
        Some((line0, rest0)) => match parse_status_line(line0) {
            None => None,
            Some((version, status)) => match crlf_line(rest0) {
                None => None,
                Some((line1, rest1)) => {
                    if line1.len() == 0 {
                        if rest1.len() == 0 {
                            Some(
                                ResponseModel {
                                    status,
                                    content_encoding: None,
                                    content_type: None,
                                    version,
                                    body: None,
                                },
                            )
                        } else {
                            None
                        }
                    } else if line1 == ascii("Content-Encoding: gzip"@) {
                        match crlf_line(rest1) {
                            None => None,
                            Some((line2, rest2)) => parse_framing(
                                version,
                                status,
                                Some(Encoding::Gzip),
                                line2,
                                rest2,
                            ),
                        }
                    } else {
                        parse_framing(version, status, None, line1, rest1)
                    }
                },
            },
        },
    }
}

proof fn lemma_parse_status_line(version: Seq<u8>, status: Status)
    requires
        version_wf(version),
    ensures
        parse_status_line(version + ascii(" "@) + status_token(status)) == Some((version, status)),
{
    reveal_strlit(" ");
    reveal_strlit("200 OK");
    reveal_strlit("201 Created");
    reveal_strlit("404 Not Found");
    reveal_strlit("500 Internal Server Error");
    let line = version + ascii(" "@) + status_token(status);
    assert(ascii(" "@).len() == 1 && ascii(" "@)[0] == SP);
    assert(line[version.len() as int] == SP);
    assert forall|j: int| 0 <= j < version.len() implies line[j] != SP by {
        assert(line[j] == version[j]);
    }
    lemma_find_from_is(line, SP, 0, version.len() as int);
    assert(line.take(version.len() as int) =~= version);
    assert(line.skip(version.len() as int + 1) =~= status_token(status));
    assert(ascii("200 OK"@).len() == 6);
    assert(ascii("201 Created"@).len() == 11);
    assert(ascii("404 Not Found"@).len() == 13);
    assert(ascii("500 Internal Server Error"@).len() == 25);
}

/// A framed wire image reads back as its own parts: the same status,
/// content type and version, the payload as the body, and an encoding
/// header exactly when one was written.
pub proof fn lemma_wire_reads_back(m: ResponseModel, payload: Seq<u8>, gzipped: bool)
    requires
        m.content_type is Some,
        version_wf(m.version),
    ensures
        spec_parse_response(framed_wire(m, payload, gzipped)) == Some(
            ResponseModel {
                status: m.status,
                content_encoding: if gzipped {
                    Some(Encoding::Gzip)
                } else {
                    None
                },
                content_type: m.content_type,
                version: m.version,
                body: Some(payload),
            },
        ),
{
    reveal_strlit(" ");
    reveal_strlit("\r\n");
    reveal_strlit("200 OK");
    reveal_strlit("201 Created");
    reveal_strlit("404 Not Found");
    reveal_strlit("500 Internal Server Error");
    reveal_strlit("Content-Encoding: gzip");
    reveal_strlit("Content-Encoding: gzip\r\n");
    reveal_strlit("Content-Type: ");
    reveal_strlit("Content-Length: ");
    reveal_strlit("text/plain");
    reveal_strlit("application/octet-stream");
    let crlf = ascii("\r\n"@);
    let line0 = m.version + ascii(" "@) + status_token(m.status);
    let ce_line = ascii("Content-Encoding: gzip"@);
    let ct_line = ascii("Content-Type: "@) + content_type_bytes(m.content_type.unwrap());
    let cl_line = ascii("Content-Length: "@) + dec_rep(payload.len());
    let after_cl = crlf + payload;
    let r_ct = ct_line + crlf + (cl_line + crlf + after_cl);
    let r0 = if gzipped {
        ce_line + crlf + r_ct
    } else {
        r_ct
    };
    let w = framed_wire(m, payload, gzipped);
    assert(ascii("Content-Encoding: gzip\r\n"@) =~= ce_line + crlf);
    assert(w =~= line0 + crlf + r0);
    assert forall|i: int| 0 <= i < line0.len() implies #[trigger] line0[i] != LF by {
        if i < m.version.len() {
            assert(line0[i] == m.version[i]);
        } else if i == m.version.len() {
            assert(line0[i] == SP);
        } else {
            assert(line0[i] == status_token(m.status)[i - m.version.len() - 1]);
        }
    }
    lemma_crlf_line(line0, r0);
    lemma_parse_status_line(m.version, m.status);
    assert(ct_line.len() == 14 + content_type_bytes(m.content_type.unwrap()).len());
    assert(content_type_bytes(ContentType::Text).len() == 10);
    assert(content_type_bytes(ContentType::Application).len() == 24);
    if gzipped {
        assert forall|i: int| 0 <= i < ce_line.len() implies #[trigger] ce_line[i] != LF by {}
        lemma_crlf_line(ce_line, r_ct);
        assert(ce_line.len() == 22);
    } else {
        assert(ct_line != ce_line);
        assert(ct_line.len() != 0);
    }
    assert forall|i: int| 0 <= i < ct_line.len() implies #[trigger] ct_line[i] != LF by {
        if i >= 14 {
            assert(ct_line[i] == content_type_bytes(m.content_type.unwrap())[i - 14]);
        }
    }
    lemma_crlf_line(ct_line, cl_line + crlf + after_cl);
    assert(ct_line != ce_line);
    assert(ct_line.len() != 0);
    assert(ascii("Content-Type: "@).is_prefix_of(ct_line)) by {
        assert(ascii("Content-Type: "@) =~= ct_line.subrange(0, 14));
    }
    assert(ct_line.skip(14) =~= content_type_bytes(m.content_type.unwrap()));
    lemma_dec_rep(payload.len() as nat);
    assert forall|i: int| 0 <= i < cl_line.len() implies #[trigger] cl_line[i] != LF by {
        if i >= 16 {
            assert(cl_line[i] == dec_rep(payload.len() as nat)[i - 16]);
            assert(is_digit(cl_line[i]));
        }
    }
    lemma_crlf_line(cl_line, after_cl);
    assert(ascii("Content-Length: "@).is_prefix_of(cl_line)) by {
        assert(ascii("Content-Length: "@) =~= cl_line.subrange(0, 16));
    }
    assert(cl_line.skip(16) =~= dec_rep(payload.len() as nat));
    assert(after_cl =~= Seq::<u8>::empty() + crlf + payload);
    lemma_crlf_line(Seq::<u8>::empty(), payload);
    assert(spec_parse_response(w) == Some(
        ResponseModel {
            status: m.status,
            content_encoding: if gzipped {
                Some(Encoding::Gzip)
            } else {
                None
            },
            content_type: m.content_type,
            version: m.version,
            body: Some(payload),
        },
    ));
}

/// No-encoding passthrough: a response serialized without an encoding
/// ends in its body verbatim, and what it reads back as carries no
/// `Content-Encoding`.
pub proof fn lemma_no_encoding_passthrough(m: ResponseModel)
    requires
        m.content_type is Some,
        m.body is Some,
        m.content_encoding is None,
        version_wf(m.version),
    ensures
        ({
            let w = framed_wire(m, m.body.unwrap(), false);
            w.skip(w.len() - m.body.unwrap().len()) == m.body.unwrap()
        }),
        spec_parse_response(framed_wire(m, m.body.unwrap(), false)) matches Some(p)
            && p.content_encoding is None && p.body == Some(m.body.unwrap()),
{
    let w = framed_wire(m, m.body.unwrap(), false);
    assert(w.skip(w.len() - m.body.unwrap().len()) =~= m.body.unwrap());
    lemma_wire_reads_back(m, m.body.unwrap(), false);
}

/// Round-trip framing: a response with a content type and a body and no
/// encoding, serialized and read back, yields the same status, content
/// type and body, and its `Content-Length` equals the body's length.
pub proof fn lemma_round_trip_framing(m: ResponseModel)
    requires
        m.content_type is Some,
        m.body is Some,
        m.content_encoding is None,
        version_wf(m.version),
    ensures
        spec_parse_response(framed_wire(m, m.body.unwrap(), false)) == Some(m),
{
    lemma_wire_reads_back(m, m.body.unwrap(), false);
    assert(Some(
        ResponseModel {
            status: m.status,
            content_encoding: None,
            content_type: m.content_type,
            version: m.version,
            body: Some(m.body.unwrap()),
        },
    ) =~~= Some(m));
}

/// Gzip idempotence under negotiation: a gzip wire image carries the
/// compressed payload as its body — so its `Content-Length` is the
/// compressed length, not the original — and that payload decompresses
/// to exactly the original body.
pub proof fn lemma_gzip_idempotence(m: ResponseModel, c: Seq<u8>)
    requires
        m.content_type is Some,
        m.body is Some,
        version_wf(m.version),
        gunzip(c) == Some(m.body.unwrap()),
    ensures
        spec_parse_response(framed_wire(m, c, true)) == Some(
            ResponseModel {
                status: m.status,
                content_encoding: Some(Encoding::Gzip),
                content_type: m.content_type,
                version: m.version,
                body: Some(c),
            },
        ),
        gunzip(spec_parse_response(framed_wire(m, c, true)).unwrap().body.unwrap()) == Some(
            m.body.unwrap(),
        ),
{
    lemma_wire_reads_back(m, c, true);
}

/// Searching a suffix finds the occurrence that searching from the cut
/// point finds.
proof fn lemma_find_from_shift(s: Seq<u8>, b: u8, p: int)
    requires
        0 <= p <= s.len(),
    ensures
        find_from(s.skip(p), b, 0) == find_from(s, b, p) - p,
{
    crate::bytes::lemma_find_from(s, b, p);
    let k = find_from(s, b, p);
    assert forall|j: int| 0 <= j < k - p implies s.skip(p)[j] != b by {
        assert(s.skip(p)[j] == s[p + j]);
    }
    if k < s.len() {
        assert(s.skip(p)[k - p] == s[k]);
    }
    lemma_find_from_is(s.skip(p), b, 0, k - p);
}

/// Locates the CRLF-terminated line starting at `pos`: the index where
/// the line's text ends and the position just past its CRLF.
fn crlf_line_at(input: &[u8], pos: usize) -> (r: Option<(usize, usize)>)
    requires
        pos <= input@.len(),
    ensures
        match r {
            Some((le, next)) => crlf_line(input@.skip(pos as int)) == Some(
                (input@.subrange(pos as int, le as int), input@.skip(next as int)),
            ) && pos <= le && le + 2 == next && next <= input@.len(),
            None => crlf_line(input@.skip(pos as int)) is None,
        },
{
    let e = crate::parser::find_byte(input, LF, pos);
    proof {
        lemma_find_from_shift(input@, LF, pos as int);
    }
    if e < input.len() && e > pos && input[e - 1] == CR {
        proof {
            assert(input@.skip(pos as int).subrange(0, e - 1 - pos as int) =~= input@.subrange(
                pos as int,
                e - 1,
            ));
            assert(input@.skip(pos as int).skip(e + 1 - pos as int) =~= input@.skip(e + 1));
        }
        Some((e - 1, e + 1))
    } else {
        None
    }
}

/// Reads a serialized response back: the exact shapes the serializer
/// emits and nothing else.
#[verifier::rlimit(60)]
pub fn parse_response(input: &[u8]) -> (r: Option<Response>)
    ensures
        match r {
            Some(resp) => spec_parse_response(input@) == Some(resp@),
            None => spec_parse_response(input@) is None,
        },
{
    proof {
        reveal_strlit("200 OK");
        reveal_strlit("201 Created");
        reveal_strlit("404 Not Found");
        reveal_strlit("500 Internal Server Error");
        reveal_strlit("Content-Encoding: gzip");
        reveal_strlit("Content-Type: ");
        reveal_strlit("Content-Length: ");
        reveal_strlit("text/plain");
        reveal_strlit("application/octet-stream");
        assert(input@.skip(0) =~= input@);
    }
    let (le0, p1) = match crlf_line_at(input, 0) {
        None => {
            return None;
        },
        Some(x) => x,
    };
    let line0 = vstd::slice::slice_subrange(input, 0, le0);
    let sp = crate::parser::find_byte(line0, SP, 0);
    if sp >= line0.len() {
        return None;
    }
    let version = vstd::slice::slice_to_vec(vstd::slice::slice_subrange(line0, 0, sp));
    let tail = vstd::slice::slice_subrange(line0, sp + 1, line0.len());
    proof {
        assert(version@ =~= line0@.take(sp as int));
        assert(tail@ =~= line0@.skip(sp as int + 1));
    }
    let status = if crate::bytes::bytes_eq(tail, crate::bytes::lit_bytes("200 OK")) {
        Status::Okay
    } else if crate::bytes::bytes_eq(tail, crate::bytes::lit_bytes("201 Created")) {
        Status::Created
    } else if crate::bytes::bytes_eq(tail, crate::bytes::lit_bytes("404 Not Found")) {
        Status::NotFound
    } else if crate::bytes::bytes_eq(tail, crate::bytes::lit_bytes("500 Internal Server Error")) {
        Status::InternalServerError
    } else {
        return None;
    };
    let (le1, p2) = match crlf_line_at(input, p1) {
        None => {
            return None;
        },
        Some(x) => x,
    };
    if le1 == p1 {
        if p2 == input.len() {
            let resp = Response {
                status,
                content_encoding: None,
                content_type: None,
                version,
                body: None,
            };
            proof {
                assert(input@.subrange(p1 as int, le1 as int).len() == 0);
                assert(input@.skip(p2 as int).len() == 0);
                assert(spec_parse_response(input@) == Some(resp@)) by {
                    assert(spec_parse_response(input@).unwrap() =~~= resp@);
                }
            }
            return Some(resp);
        }
        return None;
    }
    let line1 = vstd::slice::slice_subrange(input, p1, le1);
    let enc: Option<Encoding>;
    let ct_start: usize;
    let ct_end: usize;
    let after_ct: usize;
    if crate::bytes::bytes_eq(line1, crate::bytes::lit_bytes("Content-Encoding: gzip")) {
        match crlf_line_at(input, p2) {
            None => {
                return None;
            },
            Some((le2, p3)) => {
                enc = Some(Encoding::Gzip);
                ct_start = p2;
                ct_end = le2;
                after_ct = p3;
            },
        }
    } else {
        enc = None;
        ct_start = p1;
        ct_end = le1;
        after_ct = p2;
    }
    let ct_line = vstd::slice::slice_subrange(input, ct_start, ct_end);
    let ct_prefix = crate::bytes::lit_bytes("Content-Type: ");
    if !crate::bytes::starts_with(ct_line, ct_prefix) {
        return None;
    }
    let label = vstd::slice::slice_subrange(ct_line, ct_prefix.len(), ct_line.len());
    proof {
        assert(label@ =~= ct_line@.skip(ascii("Content-Type: "@).len() as int));
    }
    let ct = if crate::bytes::bytes_eq(label, crate::bytes::lit_bytes("text/plain")) {
        ContentType::Text
    } else if crate::bytes::bytes_eq(label, crate::bytes::lit_bytes("application/octet-stream")) {
        ContentType::Application
    } else {
        return None;
    };
    let (cl_end, p4) = match crlf_line_at(input, after_ct) {
        None => {
            return None;
        },
        Some(x) => x,
    };
    let cl_line = vstd::slice::slice_subrange(input, after_ct, cl_end);
    let cl_prefix = crate::bytes::lit_bytes("Content-Length: ");
    if !crate::bytes::starts_with(cl_line, cl_prefix) {
        return None;
    }
    let num = vstd::slice::slice_subrange(cl_line, cl_prefix.len(), cl_line.len());
    proof {
        assert(num@ =~= cl_line@.skip(ascii("Content-Length: "@).len() as int));
    }
    let (blank_end, p5) = match crlf_line_at(input, p4) {
        None => {
            return None;
        },
        Some(x) => x,
    };
    if blank_end != p4 {
        proof {
            assert(input@.subrange(p4 as int, blank_end as int).len() != 0);
        }
        return None;
    }
    proof {
        assert(input@.subrange(p4 as int, blank_end as int).len() == 0);
    }
    let remaining = input.len() - p5;
    proof {
        assert(input@.skip(p5 as int).len() == remaining);
    }
    let n = match crate::bytes::parse_dec(num) {
        None => {
            proof {
                if num@.len() > 0 && all_digits(num@) {
                    assert(dec_val(num@) > usize::MAX);
                }
            }
            return None;
        },
        Some(n) => n,
    };
    if remaining != n {
        return None;
    }
    let body = vstd::slice::slice_to_vec(vstd::slice::slice_subrange(input, p5, input.len()));
    proof {
        assert(body@ =~= input@.skip(p5 as int));
    }
    let resp = Response { status, content_encoding: enc, content_type: Some(ct), version, body: Some(body) };
    proof {
        assert(spec_parse_response(input@) == Some(resp@)) by {
            assert(spec_parse_response(input@).unwrap() =~~= resp@);
        }
    }
    Some(resp)
}

} // verus!
