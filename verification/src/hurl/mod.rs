//! The transport: what a client hands to it and what it answers.

use vstd::prelude::*;

pub mod address;
pub mod hyper;
pub mod reqwest;

verus! {

/// Sends one request and returns the server's answer, or the text of what
/// went wrong on the way.
pub trait Hurl {
    /// What holds of the outcome with which this transport answers a
    /// request. A transport that says nothing of its answers leaves this as
    /// it is.
    open spec fn answers(&self, req: RequestView, outcome: Outcome) -> bool {
        true
    }

    /// Sends the request and waits for the answer.
    fn request(&self, req: Request) -> (r: Result<Response, String>)
        ensures
            self.answers(req@, outcome_of(r)),
    ;
}

impl<T: Hurl + ?Sized> Hurl for Box<T> {
    open spec fn answers(&self, req: RequestView, outcome: Outcome) -> bool {
        (**self).answers(req, outcome)
    }

    fn request(&self, req: Request) -> (r: Result<Response, String>) {
        (**self).request(req)
    }
}

/// The method of a request.
#[derive(Debug, Clone, Copy, PartialEq, Eq, Structural)]
pub enum Method {
    POST,
    GET,
}

/// Name and password for basic authentication.
#[derive(Debug)]
pub struct Auth<'a> {
    pub username: &'a str,
    pub password: &'a str,
}

/// What an `Auth` stands for.
pub struct AuthView {
    pub username: Seq<char>,
    pub password: Seq<char>,
}

impl<'a> View for Auth<'a> {
    type V = AuthView;

    open spec fn view(&self) -> AuthView {
        AuthView { username: self.username@, password: self.password@ }
    }
}

/// One request to the database. The query holds its parameters in the
/// order in which they are written to the URL; no name occurs twice.
#[derive(Debug)]
pub struct Request<'a> {
    pub url: String,
    pub method: Method,
    pub auth: Option<Auth<'a>>,
    pub query: Option<Vec<(&'a str, String)>>,
    pub body: Option<String>,
}

/// What a `Request` stands for.
pub struct RequestView {
    pub url: Seq<char>,
    pub method: Method,
    pub auth: Option<AuthView>,
    pub query: Option<Seq<(Seq<char>, Seq<char>)>>,
    pub body: Option<Seq<char>>,
}

/// The parameters of a query, name and value each taken by its view.
pub open spec fn params<'a>(query: Seq<(&'a str, String)>) -> Seq<(Seq<char>, Seq<char>)> {
    query.map_values(|p: (&'a str, String)| (p.0@, p.1@))
}

/// No parameter name occurs twice.
pub open spec fn distinct_names(query: Seq<(Seq<char>, Seq<char>)>) -> bool {
    forall|i: int, j: int| 0 <= i < j < query.len() ==> query[i].0 != query[j].0
}

impl<'a> View for Request<'a> {
    type V = RequestView;

    open spec fn view(&self) -> RequestView {
        RequestView {
            url: self.url@,
            method: self.method,
            auth: match self.auth {
                Some(a) => Some(a@),
                None => None,
            },
            query: match self.query {
                Some(q) => Some(params(q@)),
                None => None,
            },
            body: match self.body {
                Some(b) => Some(b@),
                None => None,
            },
        }
    }
}

impl RequestView {
    /// The request is well formed: no query parameter is named twice.
    pub open spec fn wf(self) -> bool {
        self.query matches Some(q) ==> distinct_names(q)
    }
}

/// The server's answer: the status code and the body as text.
#[derive(Debug)]
pub struct Response {
    pub status: u16,
    pub body: String,
}

/// What a `Response` stands for.
pub struct ResponseView {
    pub status: u16,
    pub body: Seq<char>,
}

impl View for Response {
    type V = ResponseView;

    open spec fn view(&self) -> ResponseView {
        ResponseView { status: self.status, body: self.body@ }
    }
}

impl Response {
    /// The body of the response.
    pub fn to_string(&self) -> (r: String)
        ensures
            r@ == self@.body,
    {
        self.body.clone()
    }
}

/// What came back from the transport: a response or the text of a failure.
pub type Outcome = Result<ResponseView, Seq<char>>;

/// The view of what `Hurl::request` returned.
pub open spec fn outcome_of(r: Result<Response, String>) -> Outcome {
    match r {
        Ok(response) => Ok(response@),
        Err(e) => Err(e@),
    }
}

} // verus!
