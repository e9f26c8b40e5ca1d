//! The router: content negotiation and the fixed dispatch table that
//! maps a request onto a reply or onto one filesystem action.
//!
//! The filesystem itself is a collaborator of the caller: a `ReadFile`
//! or `WriteFile` dispatch is completed by handing the operation's
//! outcome to `read_response` or `write_response`.

use vstd::prelude::*;

verus! {

use crate::bytes::{ascii, bytes_eq, find_pair_from, lemma_find_pair_from, lit_bytes, starts_with, COMMA, SP};
use crate::http::{ContentType, Encoding, Headers, Method, Request, RequestModel, Response, ResponseModel, Status};

/// True when the comma-space-separated list `s` holds the token `gzip`.
pub open spec fn has_gzip(s: Seq<u8>) -> bool
    decreases s.len(),
    via has_gzip_decreases
{
    let i = find_pair_from(s, COMMA, SP, 0);
    if i >= s.len() {
        s == ascii("gzip"@)
    } else {
        s.take(i) == ascii("gzip"@) || has_gzip(s.skip(i + 2))
    }
}

#[via_fn]
proof fn has_gzip_decreases(s: Seq<u8>) {
    lemma_find_pair_from(s, COMMA, SP, 0);
}

/// True when the request advertises gzip support.
pub open spec fn spec_accepts_gzip(headers: Map<Seq<u8>, Seq<u8>>) -> bool {
    headers.contains_key(ascii("Accept-Encoding"@)) && has_gzip(
        headers[ascii("Accept-Encoding"@)],
    )
}

/// The encoding negotiated from the request headers: gzip when
/// advertised, nothing otherwise. Other encoding tokens are ignored,
/// never rejected.
pub open spec fn spec_negotiate(headers: Map<Seq<u8>, Seq<u8>>) -> Option<Encoding> {
    if spec_accepts_gzip(headers) {
        Some(Encoding::Gzip)
    } else {
        None
    }
}

fn has_gzip_token(s: &[u8]) -> (r: bool)
    ensures
        r == has_gzip(s@),
    decreases s@.len(),
{
    proof {
        reveal_strlit("gzip");
        lemma_find_pair_from(s@, COMMA, SP, 0);
    }
    let i = crate::parser::find_pair(s, COMMA, SP, 0);
    if i >= s.len() {
        bytes_eq(s, lit_bytes("gzip"))
    } else {
        let head = vstd::slice::slice_subrange(s, 0, i);
        if bytes_eq(head, lit_bytes("gzip")) {
            true
        } else {
            let rest = vstd::slice::slice_subrange(s, i + 2, s.len());
            proof {
                assert(rest@ =~= s@.skip(i + 2));
            }
            has_gzip_token(rest)
        }
    }
}

/// Reads the `Accept-Encoding` header and negotiates the encoding.
pub fn negotiate_encoding(headers: &Headers) -> (r: Option<Encoding>)
    ensures
        r == spec_negotiate(headers@),
{
    proof {
        reveal_strlit("Accept-Encoding");
    }
    match headers.get(lit_bytes("Accept-Encoding")) {
        None => None,
        Some(v) => {
            if has_gzip_token(v.as_slice()) {
                Some(Encoding::Gzip)
            } else {
                None
            }
        },
    }
}

/// Negotiation honors exactly the gzip advertisement: the encoding is
/// gzip when the `Accept-Encoding` list names it, and absent otherwise.
pub proof fn lemma_negotiation(headers: Map<Seq<u8>, Seq<u8>>)
    ensures
        spec_accepts_gzip(headers) <==> spec_negotiate(headers) == Some(Encoding::Gzip),
        !spec_accepts_gzip(headers) <==> spec_negotiate(headers) is None,
{
}

/// The mathematical shape of a dispatch decision.
#[verifier::ext_equal]
pub ghost enum DispatchModel {
    Reply(ResponseModel),
    ReadFile { name: Seq<u8>, version: Seq<u8>, encoding: Option<Encoding> },
    WriteFile { name: Seq<u8>, contents: Seq<u8>, version: Seq<u8>, encoding: Option<Encoding> },
}

/// What routing decided: a finished reply, or a filesystem action whose
/// outcome completes the response.
pub enum Dispatch {
    /// The response is complete.
    Reply(Response),
    /// Read the named file under the serving directory; finish with
    /// `read_response`.
    ReadFile { name: Vec<u8>, version: Vec<u8>, encoding: Option<Encoding> },
    /// Write the request body to the named file under the serving
    /// directory; finish with `write_response`.
    WriteFile { name: Vec<u8>, contents: Vec<u8>, version: Vec<u8>, encoding: Option<Encoding> },
}

impl View for Dispatch {
    type V = DispatchModel;

    open spec fn view(&self) -> DispatchModel {
        match self {
            Dispatch::Reply(resp) => DispatchModel::Reply(resp@),
            Dispatch::ReadFile { name, version, encoding } => DispatchModel::ReadFile {
                name: name@,
                version: version@,
                encoding: *encoding,
            },
            Dispatch::WriteFile { name, contents, version, encoding } => DispatchModel::WriteFile {
                name: name@,
                contents: contents@,
                version: version@,
                encoding: *encoding,
            },
        }
    }
}

/// A bodyless reply carrying only a status.
pub open spec fn spec_plain_reply(status: Status, version: Seq<u8>) -> ResponseModel {
    ResponseModel {
        status,
        content_encoding: None,
        content_type: None,
        version,
        body: None,
    }
}

/// The dispatch table, matched in priority order. Responses that carry a
/// body take the negotiated encoding; bodyless ones take none.
pub open spec fn spec_dispatch(m: RequestModel) -> DispatchModel {
    let enc = spec_negotiate(m.headers);
    match m.method {
        Method::GET => {
            if m.path == ascii("/"@) {
                DispatchModel::Reply(spec_plain_reply(Status::Okay, m.version))
            } else if m.path == ascii("/user-agent"@) {
                DispatchModel::Reply(
                    ResponseModel {
                        status: Status::Okay,
                        content_encoding: enc,
                        content_type: Some(ContentType::Text),
                        version: m.version,
                        body: Some(
                            if m.headers.contains_key(ascii("User-Agent"@)) {
                                m.headers[ascii("User-Agent"@)]
                            } else {
                                Seq::empty()
                            },
                        ),
                    },
                )
            } else if ascii("/files/"@).is_prefix_of(m.path) {
                DispatchModel::ReadFile {
                    name: m.path.skip(ascii("/files/"@).len() as int),
                    version: m.version,
                    encoding: enc,
                }
            } else if ascii("/echo/"@).is_prefix_of(m.path) {
                DispatchModel::Reply(
                    ResponseModel {
                        status: Status::Okay,
                        content_encoding: enc,
                        content_type: Some(ContentType::Text),
                        version: m.version,
                        body: Some(m.path.skip(ascii("/echo/"@).len() as int)),
                    },
                )
            } else {
                DispatchModel::Reply(spec_plain_reply(Status::NotFound, m.version))
            }
        },
        Method::POST => {
            if ascii("/files/"@).is_prefix_of(m.path) {
                DispatchModel::WriteFile {
                    name: m.path.skip(ascii("/files/"@).len() as int),
                    contents: match m.body {
                        Some(b) => b,
                        None => Seq::empty(),
                    },
                    version: m.version,
                    encoding: enc,
                }
            } else {
                DispatchModel::Reply(spec_plain_reply(Status::NotFound, m.version))
            }
        },
    }
}

/// Routes one request. A request is consumed by exactly one dispatch.
pub fn dispatch(req: Request) -> (d: Dispatch)
    ensures
        d@ == spec_dispatch(req@),
{
    proof {
        reveal_strlit("/");
        reveal_strlit("/user-agent");
        reveal_strlit("/files/");
        reveal_strlit("/echo/");
        reveal_strlit("User-Agent");
    }
    let enc = negotiate_encoding(&req.headers);
    let files_prefix = lit_bytes("/files/");
    match req.method {
        Method::GET => {
            if bytes_eq(req.path.as_slice(), lit_bytes("/")) {
                Dispatch::Reply(
                    Response {
                        status: Status::Okay,
                        content_encoding: None,
                        content_type: None,
                        version: req.version,
                        body: None,
                    },
                )
            } else if bytes_eq(req.path.as_slice(), lit_bytes("/user-agent")) {
                let body: Vec<u8> = match req.headers.get(lit_bytes("User-Agent")) {
                    Some(v) => vstd::slice::slice_to_vec(v.as_slice()),
                    None => Vec::new(),
                };
                Dispatch::Reply(
                    Response {
                        status: Status::Okay,
                        content_encoding: enc,
                        content_type: Some(ContentType::Text),
                        version: req.version,
                        body: Some(body),
                    },
                )
            } else if starts_with(req.path.as_slice(), files_prefix) {
                let name = vstd::slice::slice_to_vec(
                    vstd::slice::slice_subrange(req.path.as_slice(), files_prefix.len(), req.path.len()),
                );
                proof {
                    assert(name@ =~= req.path@.skip(ascii("/files/"@).len() as int));
                }
                Dispatch::ReadFile { name, version: req.version, encoding: enc }
            } else if starts_with(req.path.as_slice(), lit_bytes("/echo/")) {
                let echo_prefix = lit_bytes("/echo/");
                let text = vstd::slice::slice_to_vec(
                    vstd::slice::slice_subrange(req.path.as_slice(), echo_prefix.len(), req.path.len()),
                );
                proof {
                    assert(text@ =~= req.path@.skip(ascii("/echo/"@).len() as int));
                }
                Dispatch::Reply(
                    Response {
                        status: Status::Okay,
                        content_encoding: enc,
                        content_type: Some(ContentType::Text),
                        version: req.version,
                        body: Some(text),
                    },
                )
            } else {
                Dispatch::Reply(
                    Response {
                        status: Status::NotFound,
                        content_encoding: None,
                        content_type: None,
                        version: req.version,
                        body: None,
                    },
                )
            }
        },
        Method::POST => {
            if starts_with(req.path.as_slice(), files_prefix) {
                let name = vstd::slice::slice_to_vec(
                    vstd::slice::slice_subrange(req.path.as_slice(), files_prefix.len(), req.path.len()),
                );
                proof {
                    assert(name@ =~= req.path@.skip(ascii("/files/"@).len() as int));
                }
                let contents: Vec<u8> = match req.body {
                    Some(b) => b,
                    None => Vec::new(),
                };
                Dispatch::WriteFile { name, contents, version: req.version, encoding: enc }
            } else {
                Dispatch::Reply(
                    Response {
                        status: Status::NotFound,
                        content_encoding: None,
                        content_type: None,
                        version: req.version,
                        body: None,
                    },
                )
            }
        },
    }
}

/// Completes a `ReadFile` dispatch from the filesystem's outcome: the
/// file's bytes become a 200 reply with an octet-stream body, a missing
/// or unreadable file a bodyless 404.
pub open spec fn spec_read_response(
    version: Seq<u8>,
    encoding: Option<Encoding>,
    outcome: Option<Seq<u8>>,
) -> ResponseModel {
    match outcome {
        Some(data) => ResponseModel {
            status: Status::Okay,
            content_encoding: encoding,
            content_type: Some(ContentType::Application),
            version,
            body: Some(data),
        },
        None => spec_plain_reply(Status::NotFound, version),
    }
}

pub fn read_response(version: Vec<u8>, encoding: Option<Encoding>, outcome: Option<Vec<u8>>) -> (r:
    Response)
    ensures
        r@ == spec_read_response(
            version@,
            encoding,
            match outcome {
                Some(d) => Some(d@),
                None => None::<Seq<u8>>,
            },
        ),
{
    match outcome {
        Some(data) => Response {
            status: Status::Okay,
            content_encoding: encoding,
            content_type: Some(ContentType::Application),
            version,
            body: Some(data),
        },
        None => Response {
            status: Status::NotFound,
            content_encoding: None,
            content_type: None,
            version,
            body: None,
        },
    }
}

/// Completes a `WriteFile` dispatch: a bodyless 201 when the write
/// succeeded, a bodyless 500 when it failed.
pub open spec fn spec_write_response(version: Seq<u8>, ok: bool) -> ResponseModel {
    spec_plain_reply(
        if ok {
            Status::Created
        } else {
            Status::InternalServerError
        },
        version,
    )
}

pub fn write_response(version: Vec<u8>, ok: bool) -> (r: Response)
    ensures
        r@ == spec_write_response(version@, ok),
{
    Response {
        status: if ok {
            Status::Created
        } else {
            Status::InternalServerError
        },
        content_encoding: None,
        content_type: None,
        version,
        body: None,
    }
}

} // verus!
