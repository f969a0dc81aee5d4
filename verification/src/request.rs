//! A request, and the builder that collects its parts.

use crate::headers::Headers;
use crate::method::{Method, MethodView};
use vstd::prelude::*;

verus! {

/// A container for the details of an HTTP request.
#[derive(Debug, PartialEq, Eq)]
pub struct Request {
    /// HTTP version, as (major, minor)
    version: (u8, u8),
    /// HTTP method (verb)
    method: Method,
    /// Target (the URI from path onwards)
    target: String,
    /// The HTTP request headers
    headers: Headers,
    /// The request body
    body: Option<Vec<u8>>,
}

/// What a [`Request`] stands for.
pub struct RequestView {
    pub version: (u8, u8),
    pub method: MethodView,
    pub target: Seq<char>,
    pub headers: Map<Seq<char>, Seq<char>>,
    pub body: Option<Seq<u8>>,
}

/// The bytes of an optional body.
pub open spec fn body_view(body: Option<Vec<u8>>) -> Option<Seq<u8>> {
    match body {
        Some(bytes) => Some(bytes@),
        None => None,
    }
}

impl View for Request {
    type V = RequestView;

    closed spec fn view(&self) -> RequestView {
        RequestView {
            version: self.version,
            method: self.method@,
            target: self.target@,
            headers: self.headers@,
            body: body_view(self.body),
        }
    }
}

impl Request {
    /// Get the request's HTTP version, in the format (major, minor).
    pub fn get_version(&self) -> (version: (u8, u8))
        ensures
            version == self@.version,
    {
        self.version
    }

    /// Get the request method.
    pub fn get_method(&self) -> (method: &Method)
        ensures
            method@ == self@.method,
    {
        &self.method
    }

    /// Get the request target (usually the
    /// [origin form](https://tools.ietf.org/html/rfc7230#section-5.3.1) of
    /// the request url, which is the absolute path followed optionally by the
    /// query).
    pub fn get_target(&self) -> (target: &str)
        ensures
            target@ == self@.target,
    {
        self.target.as_str()
    }

    /// Get the request headers.
    pub fn get_headers(&self) -> (headers: &Headers)
        ensures
            headers@ == self@.headers,
    {
        &self.headers
    }

    /// Get the request body, if one was supplied in the request.
    pub fn get_body(&self) -> (body: Option<&[u8]>)
        ensures
            match body {
                Some(bytes) => self@.body == Some(bytes@),
                None => self@.body is None,
            },
    {
        match &self.body {
            Some(bytes) => Some(bytes.as_slice()),
            None => None,
        }
    }
}

/// A struct that can be used to incrementally build up a request, so the
/// components are optional.
#[derive(Debug, PartialEq, Eq)]
pub struct RequestBuilder {
    version: Option<(u8, u8)>,
    method: Option<Method>,
    target: Option<String>,
    headers: Headers,
    body: Option<Vec<u8>>,
}

/// What a [`RequestBuilder`] stands for: the parts that were set so far.
pub struct RequestBuilderView {
    pub version: Option<(u8, u8)>,
    pub method: Option<MethodView>,
    pub target: Option<Seq<char>>,
    pub headers: Map<Seq<char>, Seq<char>>,
    pub body: Option<Seq<u8>>,
}

impl RequestBuilderView {
    /// A builder in which nothing is set.
    pub open spec fn empty() -> RequestBuilderView {
        RequestBuilderView {
            version: None,
            method: None,
            target: None,
            headers: Map::empty(),
            body: None,
        }
    }

    /// Whether all that a request must have is set.
    pub open spec fn complete(self) -> bool {
        self.version is Some && self.method is Some && self.target is Some
    }

    /// The request that a complete builder makes.
    pub open spec fn request(self) -> RequestView
        recommends
            self.complete(),
    {
        RequestView {
            version: self.version->0,
            method: self.method->0,
            target: self.target->0,
            headers: self.headers,
            body: self.body,
        }
    }
}

impl View for RequestBuilder {
    type V = RequestBuilderView;

    closed spec fn view(&self) -> RequestBuilderView {
        RequestBuilderView {
            version: self.version,
            method: match self.method {
                Some(method) => Some(method@),
                None => None,
            },
            target: match self.target {
                Some(target) => Some(target@),
                None => None,
            },
            headers: self.headers@,
            body: body_view(self.body),
        }
    }
}

impl RequestBuilder {
    /// Construct a new `RequestBuilder`.
    pub fn new() -> (builder: RequestBuilder)
        ensures
            builder@ == RequestBuilderView::empty(),
            builder@.headers.dom().finite(),
    {
        RequestBuilder {
            version: None,
            method: None,
            target: None,
            headers: Headers::new(),
            body: None,
        }
    }

    /// Set the HTTP version of this request.
    pub fn set_version(&mut self, major: u8, minor: u8)
        ensures
            final(self)@ == (RequestBuilderView { version: Some((major, minor)), ..old(self)@ }),
    {
        self.version = Some((major, minor));
    }

    /// Set the request method.
    pub fn set_method(&mut self, method: Method)
        ensures
            final(self)@ == (RequestBuilderView { method: Some(method@), ..old(self)@ }),
    {
        self.method = Some(method);
    }

    /// Set the request target.
    pub fn set_target(&mut self, target: String)
        ensures
            final(self)@ == (RequestBuilderView { target: Some(target@), ..old(self)@ }),
    {
        self.target = Some(target);
    }

    /// Set the body of the request.
    pub fn set_body(&mut self, body: Vec<u8>)
        ensures
            final(self)@ == (RequestBuilderView { body: Some(body@), ..old(self)@ }),
    {
        self.body = Some(body);
    }

    /// Add a header. Where a header of this name is there already, the new
    /// value takes the place of the old one.
    pub fn add_header(&mut self, key: String, val: String)
        ensures
            final(self)@ == (RequestBuilderView {
                headers: old(self)@.headers.insert(key@, val@),
                ..old(self)@
            }),
            final(self)@.headers.dom().finite(),
    {
        self.headers.insert(key, val);
    }

    /// Convert this request builder into a full request. There is one where
    /// the version, the method and the target have all been set.
    pub fn into_request(self) -> (request: Option<Request>)
        ensures
            match request {
                Some(request) => self@.complete() && request@ == self@.request(),
                None => !self@.complete(),
            },
    {
        match self {
            RequestBuilder {
                version: Some(version),
                method: Some(method),
                target: Some(target),
                headers,
                body,
            } => Some(Request { version, method, target, headers, body }),
            _ => None,
        }
    }
}

} // verus!
