use vstd::prelude::*;

verus! {

/// The HTTP method in play when a failure happened; part of the context that
/// every error carries outward.
#[derive(Clone, Copy, PartialEq, Eq, Structural, Debug)]
pub enum RequestMethod {
    Get,
    Head,
}

/// One tag per failure kind of the crawl: path containment, redirect
/// handling, transport, content negotiation and content-length reading.
#[derive(Debug)]
pub enum ErrorKind {
    /// A raw path popped past the root while being normalized.
    InvalidPath,
    /// The redirect bound was exhausted; carries the number of redirects seen.
    TooManyRedirections(u64),
    /// A redirect response carried no usable `Location` header.
    MissingLocation,
    /// The `Location` header did not resolve against the current URL.
    InvalidRedirectTarget,
    /// The transport failed below the protocol (connect, TLS, read).
    TransportError,
    /// A terminal status that is neither success nor redirection; carries it.
    UnexpectedStatus(u16),
    /// A listing response carried no `Content-Type` header.
    MissingContentType,
    /// The `Content-Type` was not `text/html`; carries the header text.
    UnsupportedContentType(String),
    /// A `Content-Length` header was absent or not a decimal number; carries
    /// the status code of the response it was missing from.
    MissingOrInvalidContentLength(u16),
    /// The charset of a listing could not be used to decode its body.
    DecodeError,
}

/// One step of context: the URL and method being requested when the error
/// crossed a component boundary, outermost first.
#[derive(Debug)]
pub struct ErrorContext {
    pub url: String,
    pub method: RequestMethod,
}

/// A crawl failure: a tagged kind plus the chain of request contexts it
/// crossed on its way out.
#[derive(Debug)]
pub struct Error {
    pub kind: ErrorKind,
    pub trail: Vec<ErrorContext>,
}

impl Error {
    /// A fresh error of the given kind, with no context yet.
    pub fn new(kind: ErrorKind) -> (r: Error)
        ensures
            r.kind == kind,
            r.trail@ =~= Seq::<ErrorContext>::empty(),
    {
        Error { kind, trail: Vec::new() }
    }

    /// A fresh error already annotated with the request it came from.
    pub fn at(kind: ErrorKind, url: String, method: RequestMethod) -> (r: Error)
        ensures
            r.kind == kind,
            r.trail@.len() == 1,
            r.trail@[0].url == url,
            r.trail@[0].method == method,
    {
        Error { kind, trail: vec![ErrorContext { url, method }] }
    }

    /// The same error with one more (outer) context pushed onto its trail.
    pub fn in_context(self, url: String, method: RequestMethod) -> (r: Error)
        ensures
            r.kind == self.kind,
            r.trail@.len() == self.trail@.len() + 1,
            r.trail@.last().url == url,
            r.trail@.last().method == method,
            r.trail@.take(self.trail@.len() as int) =~= self.trail@,
    {
        let mut trail = self.trail;
        trail.push(ErrorContext { url, method });
        Error { kind: self.kind, trail }
    }
}

} // verus!
