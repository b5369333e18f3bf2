//! The transport over the `reqwest` HTTP client: what it makes of a request
//! before it sends it.

use crate::hurl::address::{address_of, request_address};
use crate::hurl::{Auth, AuthView, Method, Request, RequestView};
use vstd::prelude::*;

verus! {

/// The transport over the `reqwest` HTTP client.
#[derive(Default)]
pub struct ReqwestHurl;

/// What is handed to the HTTP client: the method, the address with the
/// query in it, the body, and the name and password for basic
/// authentication where the request asks for it.
#[derive(Debug)]
pub struct Call<'a> {
    pub method: Method,
    pub url: String,
    pub body: String,
    pub auth: Option<Auth<'a>>,
}

/// What a `Call` stands for.
pub struct CallView {
    pub method: Method,
    pub url: Seq<char>,
    pub body: Seq<char>,
    pub auth: Option<AuthView>,
}

impl<'a> View for Call<'a> {
    type V = CallView;

    open spec fn view(&self) -> CallView {
        CallView {
            method: self.method,
            url: self.url@,
            body: self.body@,
            auth: match self.auth {
                Some(a) => Some(a@),
                None => None,
            },
        }
    }
}

/// The body that is sent: the body of the request, or an empty one.
pub open spec fn body_of(body: Option<Seq<char>>) -> Seq<char> {
    match body {
        Some(b) => b,
        None => Seq::empty(),
    }
}

/// The call for a request. A URL that cannot be parsed gives the error text;
/// `None` says that the address would grow beyond what the `url` crate can
/// address.
pub open spec fn call_of(req: RequestView) -> Option<Result<CallView, Seq<char>>> {
    match address_of(req.url, req.query) {
        None => None,
        Some(Err(e)) => Some(Err(e)),
        Some(Ok(address)) => Some(
            Ok(CallView { method: req.method, url: address, body: body_of(req.body), auth: req.auth }),
        ),
    }
}

/// The view of a call or of what stood in its way.
pub open spec fn call_view(r: Option<Result<Call, String>>) -> Option<Result<CallView, Seq<char>>> {
    match r {
        None => None,
        Some(Ok(call)) => Some(Ok(call@)),
        Some(Err(e)) => Some(Err(e@)),
    }
}

impl ReqwestHurl {
    /// Constructs the transport.
    pub fn new() -> (r: ReqwestHurl) {
        ReqwestHurl
    }

    /// Works out what is handed to the HTTP client for a request.
    pub fn prepare<'a>(&self, req: Request<'a>) -> (r: Option<Result<Call<'a>, String>>)
        ensures
            call_view(r) == call_of(req@),
    {
        match request_address(req.url.as_str(), &req.query) {
            None => None,
            Some(Err(e)) => Some(Err(e)),
            Some(Ok(address)) => {
                let body = match req.body {
                    Some(b) => b,
                    None => String::new(),
                };
                Some(Ok(Call { method: req.method, url: address, body: body, auth: req.auth }))
            },
        }
    }
}

} // verus!
