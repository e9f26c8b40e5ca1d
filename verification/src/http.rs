//! The request and response data model: methods, status codes, content
//! types and encodings, header collections, and the two message structs.

use vstd::prelude::*;

verus! {

use crate::bytes::ascii;

/// The status codes a handler can produce, each carrying a fixed reason
/// phrase on the wire.
#[derive(Clone, Copy, Debug, PartialEq, Eq, Structural)]
pub enum Status {
    Okay,
    Created,
    InternalServerError,
    NotFound,
}

impl Status {
    /// The numeric status code.
    pub open spec fn spec_code(self) -> int {
        match self {
            Status::Okay => 200,
            Status::Created => 201,
            Status::InternalServerError => 500,
            Status::NotFound => 404,
        }
    }

    /// The reason phrase that accompanies the code.
    pub open spec fn spec_message(self) -> Seq<char> {
        match self {
            Status::Okay => "OK"@,
            Status::Created => "Created"@,
            Status::InternalServerError => "Internal Server Error"@,
            Status::NotFound => "Not Found"@,
        }
    }

    pub fn code(&self) -> (r: usize)
        ensures
            r == self.spec_code(),
    {
        match self {
            Status::Okay => 200,
            Status::Created => 201,
            Status::InternalServerError => 500,
            Status::NotFound => 404,
        }
    }

    pub fn message(&self) -> (r: &'static str)
        ensures
            r@ == self.spec_message(),
    {
        match self {
            Status::Okay => "OK",
            Status::Created => "Created",
            Status::InternalServerError => "Internal Server Error",
            Status::NotFound => "Not Found",
        }
    }
}

/// The body types the handlers emit.
#[derive(Clone, Copy, Debug, PartialEq, Eq, Structural)]
pub enum ContentType {
    Text,
    Application,
}

impl ContentType {
    /// The media-type label written into the `Content-Type` header.
    pub open spec fn spec_label(self) -> Seq<char> {
        match self {
            ContentType::Text => "text/plain"@,
            ContentType::Application => "application/octet-stream"@,
        }
    }

    pub fn label(&self) -> (r: &'static str)
        ensures
            r@ == self.spec_label(),
    {
        match self {
            ContentType::Text => "text/plain",
            ContentType::Application => "application/octet-stream",
        }
    }
}

/// The request methods that are represented; any other token is a parse
/// failure, not a value.
#[derive(Clone, Copy, Debug, PartialEq, Eq, Structural)]
pub enum Method {
    GET,
    POST,
}

/// The body encodings that can be negotiated.
#[derive(Clone, Copy, Debug, PartialEq, Eq, Structural)]
pub enum Encoding {
    Gzip,
}

impl Encoding {
    /// The token written into the `Content-Encoding` header.
    pub open spec fn spec_label(self) -> Seq<char> {
        match self {
            Encoding::Gzip => "gzip"@,
        }
    }

    pub fn label(&self) -> (r: &'static str)
        ensures
            r@ == self.spec_label(),
    {
        match self {
            Encoding::Gzip => "gzip",
        }
    }
}

/// One header line, split at the first `": "`.
pub struct Header {
    pub name: Vec<u8>,
    pub value: Vec<u8>,
}

/// A name-to-value header collection with last-write-wins semantics.
pub struct Headers {
    entries: Vec<Header>,
}

/// The map that a list of header entries denotes, later entries
/// overwriting earlier ones.
pub open spec fn header_map(s: Seq<Header>) -> Map<Seq<u8>, Seq<u8>>
    decreases s.len(),
{
    if s.len() == 0 {
        Map::empty()
    } else {
        header_map(s.drop_last()).insert(s.last().name@, s.last().value@)
    }
}

impl View for Headers {
    type V = Map<Seq<u8>, Seq<u8>>;

    closed spec fn view(&self) -> Map<Seq<u8>, Seq<u8>> {
        header_map(self.entries@)
    }
}

/// The lookup that a backwards scan of the entries performs; it agrees
/// with the map view (`lemma_header_lookup`).
pub open spec fn header_lookup(s: Seq<Header>, name: Seq<u8>) -> Option<Seq<u8>>
    decreases s.len(),
{
    if s.len() == 0 {
        None
    } else if s.last().name@ == name {
        Some(s.last().value@)
    } else {
        header_lookup(s.drop_last(), name)
    }
}

pub proof fn lemma_header_lookup(s: Seq<Header>, name: Seq<u8>)
    ensures
        match header_lookup(s, name) {
            Some(v) => header_map(s).contains_key(name) && header_map(s)[name] == v,
            None => !header_map(s).contains_key(name),
        },
    decreases s.len(),
{
    if s.len() > 0 && s.last().name@ != name {
        lemma_header_lookup(s.drop_last(), name);
    }
}

impl Headers {
    /// An empty collection.
    pub fn new() -> (r: Headers)
        ensures
            r@ == Map::<Seq<u8>, Seq<u8>>::empty(),
    {
        Headers { entries: Vec::new() }
    }

    /// Records a header, overwriting any earlier value under the same name.
    pub fn insert(&mut self, name: Vec<u8>, value: Vec<u8>)
        ensures
            final(self)@ == old(self)@.insert(name@, value@),
    {
        let ghost before = self.entries@;
        self.entries.push(Header { name, value });
        proof {
            assert(self.entries@.drop_last() =~= before);
        }
    }

    /// Looks a header up by its exact name.
    #[verifier::loop_isolation(false)]
    pub fn get(&self, name: &[u8]) -> (r: Option<&Vec<u8>>)
        ensures
            match r {
                Some(v) => self@.contains_key(name@) && self@[name@] == v@,
                None => !self@.contains_key(name@),
            },
    {
        proof {
            lemma_header_lookup(self.entries@, name@);
            assert(self.entries@.take(self.entries@.len() as int) =~= self.entries@);
        }
        let mut i: usize = self.entries.len();
        while i > 0
            invariant
                i <= self.entries.len(),
                header_lookup(self.entries@.take(i as int), name@) == header_lookup(
                    self.entries@,
                    name@,
                ),
            decreases i,
        {
            i -= 1;
            proof {
                assert(self.entries@.take(i + 1).drop_last() =~= self.entries@.take(i as int));
                assert(self.entries@.take(i + 1).last() == self.entries@[i as int]);
            }
            let e = &self.entries[i];
            if crate::bytes::bytes_eq(e.name.as_slice(), name) {
                proof {
                    assert(header_lookup(self.entries@.take(i + 1), name@) == Some(e.value@));
                }
                return Some(&e.value);
            }
        }
        proof {
            assert(self.entries@.take(0) =~= Seq::<Header>::empty());
        }
        None
    }
}

/// The mathematical shape of a request.
#[verifier::ext_equal]
pub ghost struct RequestModel {
    pub method: Method,
    pub path: Seq<u8>,
    pub version: Seq<u8>,
    pub headers: Map<Seq<u8>, Seq<u8>>,
    pub body: Option<Seq<u8>>,
}

/// One parsed request: constructed by the parser, consumed by one
/// dispatch.
pub struct Request {
    pub method: Method,
    pub path: Vec<u8>,
    pub version: Vec<u8>,
    pub headers: Headers,
    pub body: Option<Vec<u8>>,
}

impl View for Request {
    type V = RequestModel;

    open spec fn view(&self) -> RequestModel {
        RequestModel {
            method: self.method,
            path: self.path@,
            version: self.version@,
            headers: self.headers@,
            body: match self.body {
                Some(b) => Some(b@),
                None => None,
            },
        }
    }
}

/// The mathematical shape of a response.
#[verifier::ext_equal]
pub ghost struct ResponseModel {
    pub status: Status,
    pub content_encoding: Option<Encoding>,
    pub content_type: Option<ContentType>,
    pub version: Seq<u8>,
    pub body: Option<Seq<u8>>,
}

/// One response: constructed by a handler, serialized once.
pub struct Response {
    pub status: Status,
    pub content_encoding: Option<Encoding>,
    pub content_type: Option<ContentType>,
    pub version: Vec<u8>,
    pub body: Option<Vec<u8>>,
}

impl View for Response {
    type V = ResponseModel;

    open spec fn view(&self) -> ResponseModel {
        ResponseModel {
            status: self.status,
            content_encoding: self.content_encoding,
            content_type: self.content_type,
            version: self.version@,
            body: match self.body {
                Some(b) => Some(b@),
                None => None,
            },
        }
    }
}

/// A version token as the parser would produce it: free of the bytes
/// that delimit a status line.
pub open spec fn version_wf(v: Seq<u8>) -> bool {
    forall|i: int|
        0 <= i < v.len() ==> #[trigger] v[i] != crate::bytes::SP && v[i] != crate::bytes::CR && v[i]
            != crate::bytes::LF
}

} // verus!
verus! {
fn contract_trial() {
    let c = Status::Okay.code();
    assert(c == 200);
    let m = Status::NotFound.message();
    proof {
        reveal_strlit("Not Found");
        reveal_strlit("OK");
    }
    assert(m@.len() == 9);
    assert(m@ != "OK"@);
}
} // verus!
