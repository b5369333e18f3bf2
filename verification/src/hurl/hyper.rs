//! The transport over the `hyper` HTTP client: what it makes of a request
//! before it sends it.

use crate::hurl::address::{address_of, request_address};
use crate::hurl::reqwest::body_of;
use crate::hurl::{Auth, AuthView, Method, Request, RequestView};
use vstd::prelude::*;
use vstd::string::StringExecFns;

verus! {

/// The transport over the `hyper` HTTP client.
#[derive(Default)]
pub struct HyperHurl;

/// The text that `base64::encode` makes of the bytes of a text: standard
/// alphabet, with padding.
pub uninterp spec fn base64_text(input: Seq<char>) -> Seq<char>;

/// `base64::encode`: encodes the bytes of the text.
///
/// The contract gives the encoding its name. The crate stops the program
/// where the length of the encoding does not fit in a `usize`; that takes an
/// input of more than half the address space, which no `&str` is.
#[verifier::external_body]
fn base64_encode(input: &str) -> (r: String)
    ensures
        r@ == base64_text(input@),
{
    base64::encode(input)
}

/// What is handed to the HTTP client: the method, the address with the
/// query in it, the body, and the value of the `Authorization` header where
/// the request asks for authentication.
#[derive(Debug)]
pub struct Call {
    pub method: Method,
    pub url: String,
    pub body: String,
    pub authorization: Option<String>,
}

/// What a `Call` stands for.
pub struct CallView {
    pub method: Method,
    pub url: Seq<char>,
    pub body: Seq<char>,
    pub authorization: Option<Seq<char>>,
}

impl View for Call {
    type V = CallView;

    open spec fn view(&self) -> CallView {
        CallView {
            method: self.method,
            url: self.url@,
            body: self.body@,
            authorization: match self.authorization {
                Some(a) => Some(a@),
                None => None,
            },
        }
    }
}

/// What is encoded for the header: the name, a colon, the password.
pub open spec fn credentials_text(auth: AuthView) -> Seq<char> {
    auth.username + seq![':'] + auth.password
}

/// The value of a basic `Authorization` header: the scheme, a space, and the
/// encoded credentials.
pub open spec fn basic_header(encoded: Seq<char>) -> Seq<char> {
    "Basic "@ + encoded
}

/// The value of the `Authorization` header: that of basic authentication
/// with the name and password of the request, or none where the request asks
/// for no authentication.
pub open spec fn authorization_of(auth: Option<AuthView>) -> Option<Seq<char>> {
    match auth {
        Some(a) => Some(basic_header(base64_text(credentials_text(a)))),
        None => None,
    }
}

/// Writes the value of a basic `Authorization` header for credentials that
/// are encoded already.
pub fn basic(encoded: &str) -> (r: String)
    ensures
        r@ == basic_header(encoded@),
{
    let mut text = "Basic ".to_owned();
    text.append(encoded);
    text
}

/// Writes the name, a colon and the password.
pub fn credentials(auth: &Auth) -> (r: String)
    ensures
        r@ == credentials_text(auth@),
{
    let mut text = auth.username.to_owned();
    text.push(':');
    text.append(auth.password);
    text
}

/// The call for a request. A URL that cannot be parsed gives the error text;
/// `None` says that the address would grow beyond what the `url` crate can
/// address.
pub open spec fn call_of(req: RequestView) -> Option<Result<CallView, Seq<char>>> {
    match address_of(req.url, req.query) {
        None => None,
        Some(Err(e)) => Some(Err(e)),
        Some(Ok(address)) => Some(
            Ok(
                CallView {
                    method: req.method,
                    url: address,
                    body: body_of(req.body),
                    authorization: authorization_of(req.auth),
                },
            ),
        ),
    }
}

/// The view of a call or of what stood in its way.
pub open spec fn call_view(r: Option<Result<Call, String>>) -> Option<Result<CallView, Seq<char>>> {
    match r {
        None => None,
        Some(Ok(call)) => Some(Ok(call@)),
        Some(Err(e)) => Some(Err(e@)),
    }
}

impl HyperHurl {
    /// Constructs the transport.
    pub fn new() -> (r: HyperHurl) {
        HyperHurl
    }

    /// Works out what is handed to the HTTP client for a request.
    pub fn prepare(&self, req: Request) -> (r: Option<Result<Call, String>>)
        ensures
            call_view(r) == call_of(req@),
    {
        match request_address(req.url.as_str(), &req.query) {
            None => None,
            Some(Err(e)) => Some(Err(e)),
            Some(Ok(address)) => {
                let authorization = match &req.auth {
                    Some(auth) => Some(
                        basic(base64_encode(credentials(auth).as_str()).as_str()),
                    ),
                    None => None,
                };
                let body = match req.body {
                    Some(b) => b,
                    None => String::new(),
                };
                Some(
                    Ok(
                        Call {
                            method: req.method,
                            url: address,
                            body: body,
                            authorization: authorization,
                        },
                    ),
                )
            },
        }
    }
}

} // verus!
