//! HTTP methods (verbs), as defined by
//! [RFC 7231 §4](https://tools.ietf.org/html/rfc7231#section-4).

use crate::text::{bytes_of, same_bytes};
use std::sync::Arc;
use vstd::prelude::*;

verus! {

/// An HTTP method: one of the standard ones, or any other name.
#[derive(Debug, PartialEq, Eq)]
pub enum Method {
    Get,
    Post,
    Patch,
    Delete,
    Put,
    Head,
    Connect,
    Options,
    Trace,
    /// A method that is none of the above, with its name as it was given.
    Custom(Arc<Vec<u8>>),
}

/// What a [`Method`] stands for.
pub enum MethodView {
    Get,
    Post,
    Patch,
    Delete,
    Put,
    Head,
    Connect,
    Options,
    Trace,
    Custom(Seq<u8>),
}

impl MethodView {
    /// The method that the name `name` stands for. Names are case-sensitive:
    /// only the upper-case names are the standard methods.
    pub open spec fn named(name: Seq<u8>) -> MethodView {
        if name == bytes_of("GET"@) {
            MethodView::Get
        } else if name == bytes_of("POST"@) {
            MethodView::Post
        } else if name == bytes_of("PATCH"@) {
            MethodView::Patch
        } else if name == bytes_of("DELETE"@) {
            MethodView::Delete
        } else if name == bytes_of("PUT"@) {
            MethodView::Put
        } else if name == bytes_of("HEAD"@) {
            MethodView::Head
        } else if name == bytes_of("CONNECT"@) {
            MethodView::Connect
        } else if name == bytes_of("OPTIONS"@) {
            MethodView::Options
        } else if name == bytes_of("TRACE"@) {
            MethodView::Trace
        } else {
            MethodView::Custom(name)
        }
    }
}

impl MethodView {
    /// The name of this method, as it stands in a request line.
    pub open spec fn name(self) -> Seq<u8> {
        match self {
            MethodView::Get => bytes_of("GET"@),
            MethodView::Post => bytes_of("POST"@),
            MethodView::Patch => bytes_of("PATCH"@),
            MethodView::Delete => bytes_of("DELETE"@),
            MethodView::Put => bytes_of("PUT"@),
            MethodView::Head => bytes_of("HEAD"@),
            MethodView::Connect => bytes_of("CONNECT"@),
            MethodView::Options => bytes_of("OPTIONS"@),
            MethodView::Trace => bytes_of("TRACE"@),
            MethodView::Custom(name) => name,
        }
    }

    /// The method that a name stands for has that name.
    pub proof fn lemma_named(name: Seq<u8>)
        ensures
            MethodView::named(name).name() == name,
    {
    }
}

impl View for Method {
    type V = MethodView;

    open spec fn view(&self) -> MethodView {
        match self {
            Method::Get => MethodView::Get,
            Method::Post => MethodView::Post,
            Method::Patch => MethodView::Patch,
            Method::Delete => MethodView::Delete,
            Method::Put => MethodView::Put,
            Method::Head => MethodView::Head,
            Method::Connect => MethodView::Connect,
            Method::Options => MethodView::Options,
            Method::Trace => MethodView::Trace,
            Method::Custom(name) => MethodView::Custom(name@),
        }
    }
}

impl Clone for Method {
    fn clone(&self) -> (method: Method)
        ensures
            method@ == self@,
    {
        match self {
            Method::Get => Method::Get,
            Method::Post => Method::Post,
            Method::Patch => Method::Patch,
            Method::Delete => Method::Delete,
            Method::Put => Method::Put,
            Method::Head => Method::Head,
            Method::Connect => Method::Connect,
            Method::Options => Method::Options,
            Method::Trace => Method::Trace,
            Method::Custom(name) => Method::Custom(name.clone()),
        }
    }
}

const GET: [u8; 3] = [0x47, 0x45, 0x54];

const POST: [u8; 4] = [0x50, 0x4f, 0x53, 0x54];

const PATCH: [u8; 5] = [0x50, 0x41, 0x54, 0x43, 0x48];

const DELETE: [u8; 6] = [0x44, 0x45, 0x4c, 0x45, 0x54, 0x45];

const PUT: [u8; 3] = [0x50, 0x55, 0x54];

const HEAD: [u8; 4] = [0x48, 0x45, 0x41, 0x44];

const CONNECT: [u8; 7] = [0x43, 0x4f, 0x4e, 0x4e, 0x45, 0x43, 0x54];

const OPTIONS: [u8; 7] = [0x4f, 0x50, 0x54, 0x49, 0x4f, 0x4e, 0x53];

const TRACE: [u8; 5] = [0x54, 0x52, 0x41, 0x43, 0x45];

/// The constants above spell the names of the standard methods.
proof fn lemma_names()
    ensures
        GET@ == bytes_of("GET"@),
        POST@ == bytes_of("POST"@),
        PATCH@ == bytes_of("PATCH"@),
        DELETE@ == bytes_of("DELETE"@),
        PUT@ == bytes_of("PUT"@),
        HEAD@ == bytes_of("HEAD"@),
        CONNECT@ == bytes_of("CONNECT"@),
        OPTIONS@ == bytes_of("OPTIONS"@),
        TRACE@ == bytes_of("TRACE"@),
{
    reveal_strlit("GET");
    reveal_strlit("POST");
    reveal_strlit("PATCH");
    reveal_strlit("DELETE");
    reveal_strlit("PUT");
    reveal_strlit("HEAD");
    reveal_strlit("CONNECT");
    reveal_strlit("OPTIONS");
    reveal_strlit("TRACE");
    assert(GET@ =~= bytes_of("GET"@));
    assert(POST@ =~= bytes_of("POST"@));
    assert(PATCH@ =~= bytes_of("PATCH"@));
    assert(DELETE@ =~= bytes_of("DELETE"@));
    assert(PUT@ =~= bytes_of("PUT"@));
    assert(HEAD@ =~= bytes_of("HEAD"@));
    assert(CONNECT@ =~= bytes_of("CONNECT"@));
    assert(OPTIONS@ =~= bytes_of("OPTIONS"@));
    assert(TRACE@ =~= bytes_of("TRACE"@));
}

impl Method {
    /// Construct a `Method` from the corresponding case-sensitive name,
    /// provided as a vector of bytes. The vector is kept as the name of the
    /// method where it is not a known one.
    pub fn from(name: Vec<u8>) -> (method: Method)
        ensures
            method@ == MethodView::named(name@),
    {
        proof {
            lemma_names();
        }
        if same_bytes(name.as_slice(), GET.as_slice()) {
            return Method::Get;
        }
        if same_bytes(name.as_slice(), POST.as_slice()) {
            return Method::Post;
        }
        if same_bytes(name.as_slice(), PATCH.as_slice()) {
            return Method::Patch;
        }
        if same_bytes(name.as_slice(), DELETE.as_slice()) {
            return Method::Delete;
        }
        if same_bytes(name.as_slice(), PUT.as_slice()) {
            return Method::Put;
        }
        if same_bytes(name.as_slice(), HEAD.as_slice()) {
            return Method::Head;
        }
        if same_bytes(name.as_slice(), CONNECT.as_slice()) {
            return Method::Connect;
        }
        if same_bytes(name.as_slice(), OPTIONS.as_slice()) {
            return Method::Options;
        }
        if same_bytes(name.as_slice(), TRACE.as_slice()) {
            return Method::Trace;
        }
        Method::Custom(Arc::new(name))
    }
}

} // verus!
