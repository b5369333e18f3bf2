//! Clients of the database: what they are given and what they report.

use crate::measurement::{Measurement, MeasurementView};
use crate::serializer::measured;
use vstd::prelude::*;

pub mod answer;
pub mod batch;
pub mod http;
pub mod udp;

verus! {

/// Writes measurements to the database and queries it.
///
/// `write_ends` and `query_ends` say what holds of the results of a client.
/// A client that holds them true of every result promises nothing.
pub trait Client {
    /// The client is set up for writes. A client that is always set up
    /// leaves this as it is.
    open spec fn ready_to_write(&self) -> bool {
        true
    }

    /// The client is set up for queries. A client that is always set up
    /// leaves this as it is.
    open spec fn ready_to_query(&self) -> bool {
        true
    }

    /// What holds of the result in which a write of the measurements ends. A
    /// client that says nothing of its writes leaves this as it is.
    open spec fn write_ends(
        &self,
        measurements: Seq<MeasurementView>,
        precision: Option<Precision>,
        result: Result<(), ClientErrorView>,
    ) -> bool {
        true
    }

    /// What holds of the result in which a query ends. A client that says
    /// nothing of its queries leaves this as it is.
    open spec fn query_ends(
        &self,
        query: Seq<char>,
        precision: Option<Precision>,
        result: Result<Seq<char>, ClientErrorView>,
    ) -> bool {
        true
    }

    /// Writes the measurements.
    fn write_many(&self, measurements: &[Measurement<'_>], precision: Option<Precision>) -> (r:
        Result<(), ClientError>)
        requires
            self.ready_to_write(),
        ensures
            self.write_ends(measured(measurements@), precision, written(r)),
    ;

    /// Writes a single measurement.
    fn write_one(&self, measurement: Measurement<'_>, precision: Option<Precision>) -> (r: Result<
        (),
        ClientError,
    >)
        requires
            self.ready_to_write(),
        ensures
            self.write_ends(seq![measurement@], precision, written(r)),
    ;

    /// Runs a query and returns the body of the answer.
    fn query(&self, query: String, precision: Option<Precision>) -> (r: Result<
        String,
        ClientError,
    >)
        requires
            self.ready_to_query(),
        ensures
            self.query_ends(query@, precision, answered(r)),
    ;
}

/// Who writes, and into which database.
#[derive(Debug, Clone, Copy)]
pub struct Credentials<'a> {
    pub username: &'a str,
    pub password: &'a str,
    pub database: &'a str,
}

/// The unit in which the server reads or reports timestamps.
#[derive(Debug, Clone, Copy, PartialEq, Eq, Structural)]
pub enum Precision {
    Nanoseconds,
    Microseconds,
    Milliseconds,
    Seconds,
    Minutes,
    Hours,
}

impl Precision {
    /// The code of the precision in a request.
    pub open spec fn code(self) -> Seq<char> {
        match self {
            Precision::Nanoseconds => "n"@,
            Precision::Microseconds => "u"@,
            Precision::Milliseconds => "ms"@,
            Precision::Seconds => "s"@,
            Precision::Minutes => "m"@,
            Precision::Hours => "h"@,
        }
    }

    /// The code of the precision in a request.
    pub fn to_string(&self) -> (r: String)
        ensures
            r@ == self.code(),
    {
        let s = match *self {
            Precision::Nanoseconds => "n",
            Precision::Microseconds => "u",
            Precision::Milliseconds => "ms",
            Precision::Seconds => "s",
            Precision::Minutes => "m",
            Precision::Hours => "h",
        };
        s.to_owned()
    }
}

/// What went wrong with a request.
#[derive(Debug)]
pub enum ClientError {
    /// The server took a write and did not complete it.
    CouldNotComplete(String),
    /// The transport failed.
    Communication(String),
    /// The server refused the request as malformed.
    Syntax(String),
    /// The server answered with a status that the protocol does not name.
    Unexpected(String),
    Unknown,
}

/// An I/O error of the standard library.
#[verifier::external_type_specification]
#[verifier::external_body]
pub struct ExIoError(std::io::Error);

/// The text that `std::io::Error` shows through `Display`. It depends on the
/// operating system, so nothing is claimed of it.
#[verifier::external_body]
fn io_error_text(e: &std::io::Error) -> (r: String) {
    format!("{}", e)
}

impl From<std::io::Error> for ClientError {
    /// An I/O error is a failure of communication, with the text of the
    /// error.
    fn from(e: std::io::Error) -> (r: ClientError)
        ensures
            r is Communication,
    {
        ClientError::Communication(io_error_text(&e))
    }
}

impl vstd::std_specs::convert::FromSpecImpl<std::io::Error> for ClientError {
    open spec fn obeys_from_spec() -> bool {
        false
    }

    open spec fn from_spec(e: std::io::Error) -> ClientError {
        arbitrary()
    }
}

/// What a `ClientError` stands for.
pub enum ClientErrorView {
    CouldNotComplete(Seq<char>),
    Communication(Seq<char>),
    Syntax(Seq<char>),
    Unexpected(Seq<char>),
    Unknown,
}

impl View for ClientError {
    type V = ClientErrorView;

    open spec fn view(&self) -> ClientErrorView {
        match *self {
            ClientError::CouldNotComplete(s) => ClientErrorView::CouldNotComplete(s@),
            ClientError::Communication(s) => ClientErrorView::Communication(s@),
            ClientError::Syntax(s) => ClientErrorView::Syntax(s@),
            ClientError::Unexpected(s) => ClientErrorView::Unexpected(s@),
            ClientError::Unknown => ClientErrorView::Unknown,
        }
    }
}

/// The result of a write, the error taken by its view.
pub open spec fn written(r: Result<(), ClientError>) -> Result<(), ClientErrorView> {
    match r {
        Ok(_) => Ok(()),
        Err(e) => Err(e@),
    }
}

/// The result of a query, body and error each taken by its view.
pub open spec fn answered(r: Result<String, ClientError>) -> Result<Seq<char>, ClientErrorView> {
    match r {
        Ok(body) => Ok(body@),
        Err(e) => Err(e@),
    }
}

} // verus!
