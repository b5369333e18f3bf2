//! The HTTP client: it builds the requests for queries and batched writes
//! and sends them through its transport.

use crate::client::answer::{
    classified_query, classified_write, classify_query, first_step, first_to_fail,
    lemma_sent_until_failure, lemma_write_fails_fast, lemma_write_succeeds, next_step, no_content,
    sequential_write, step_after, WriteStep, WriteStepView,
};
use crate::client::batch::{batch, chunks, lemma_chunks_of_views, slices};
use crate::client::{
    answered, written, Client, ClientError, ClientErrorView, Credentials, Precision,
};
use crate::hurl::{
    outcome_of, params, Auth, AuthView, Hurl, Method, Outcome, Request, RequestView,
};
use crate::measurement::{Measurement, MeasurementView};
use crate::serializer::{measured, serialize_all, serialized, Serializer};
use crate::text::{join, joined, texts};
use vstd::prelude::*;
use vstd::string::StringExecFns;

verus! {

/// How many measurements go into one write request unless the client is told
/// otherwise.
pub const MAX_BATCH: u16 = 5000;

/// How a write ended that the server took.
pub enum WriteStatus {
    Success,
    CouldNotComplete,
}

/// Settings that a caller may give for its requests.
pub struct Options {
    pub max_batch: Option<u16>,
    pub precision: Option<Precision>,
    pub epoch: Option<Precision>,
    pub chunk_size: Option<u16>,
}

/// What an `HttpClient` stands for, but for its serializer and transport.
pub struct HttpClientView {
    pub username: Seq<char>,
    pub password: Seq<char>,
    pub database: Seq<char>,
    pub hosts: Seq<Seq<char>>,
    pub max_batch: u16,
}

/// Basic authentication is asked for where both the user name and the
/// password are given.
pub open spec fn auth_of(client: HttpClientView) -> Option<AuthView> {
    if client.username.len() > 0 && client.password.len() > 0 {
        Some(AuthView { username: client.username, password: client.password })
    } else {
        None
    }
}

/// The parameters of a query request.
pub open spec fn query_params(database: Seq<char>, q: Seq<char>, epoch: Option<Precision>) -> Seq<
    (Seq<char>, Seq<char>),
> {
    match epoch {
        Some(p) => seq![("db"@, database), ("q"@, q), ("epoch"@, p.code())],
        None => seq![("db"@, database), ("q"@, q)],
    }
}

/// The request for a query: `GET <host>/query?db=<database>&q=<statement>`,
/// with `&epoch=<code>` where a precision is given.
pub open spec fn query_request_of(
    client: HttpClientView,
    q: Seq<char>,
    epoch: Option<Precision>,
) -> RequestView
    recommends
        client.hosts.len() > 0,
{
    RequestView {
        url: client.hosts[0] + "/query"@,
        method: Method::GET,
        auth: auth_of(client),
        query: Some(query_params(client.database, q, epoch)),
        body: None,
    }
}

/// The parameters of a write request.
pub open spec fn write_params(database: Seq<char>, precision: Option<Precision>) -> Seq<
    (Seq<char>, Seq<char>),
> {
    match precision {
        Some(p) => seq![("db"@, database), ("precision"@, p.code())],
        None => seq![("db"@, database)],
    }
}

/// The request that writes one chunk:
/// `POST <host>/write?db=<database>`, with `&precision=<code>` where a
/// precision is given; the body holds the lines with a newline between each
/// two.
pub open spec fn write_request_of(
    client: HttpClientView,
    lines: Seq<Seq<char>>,
    precision: Option<Precision>,
) -> RequestView
    recommends
        client.hosts.len() > 0,
{
    RequestView {
        url: client.hosts[0] + "/write"@,
        method: Method::POST,
        auth: auth_of(client),
        query: Some(write_params(client.database, precision)),
        body: Some(joined(lines, "\n"@)),
    }
}

/// The requests that a client builds are well formed.
pub proof fn lemma_requests_well_formed(
    client: HttpClientView,
    q: Seq<char>,
    lines: Seq<Seq<char>>,
    precision: Option<Precision>,
)
    ensures
        query_request_of(client, q, precision).wf(),
        write_request_of(client, lines, precision).wf(),
{
    reveal_strlit("db");
    reveal_strlit("q");
    reveal_strlit("epoch");
    reveal_strlit("precision");
    assert("db"@.len() == 2);
    assert("q"@.len() == 1);
    assert("epoch"@.len() == 5);
    assert("precision"@.len() == 9);
}

/// The HTTP client: it serializes measurements with `S` and sends its
/// requests through `H`, to the first of its hosts.
pub struct HttpClient<'a, S, H> {
    credentials: Credentials<'a>,
    serializer: S,
    hurl: H,
    hosts: Vec<&'a str>,
    pub max_batch: u16,
}

impl<'a, S, H> View for HttpClient<'a, S, H> {
    type V = HttpClientView;

    closed spec fn view(&self) -> HttpClientView {
        HttpClientView {
            username: self.credentials.username@,
            password: self.credentials.password@,
            database: self.credentials.database@,
            hosts: self.hosts@.map_values(|h: &'a str| h@),
            max_batch: self.max_batch,
        }
    }
}

impl<'a, S, H> HttpClient<'a, S, H> {
    /// The serializer that writes the lines.
    pub closed spec fn writer(&self) -> S {
        self.serializer
    }

    /// The transport that the requests go through.
    pub closed spec fn transport(&self) -> H {
        self.hurl
    }

    /// A client without hosts that writes up to `MAX_BATCH` measurements
    /// with one request.
    pub fn new(credentials: Credentials<'a>, serializer: S, hurl: H) -> (r: HttpClient<'a, S, H>)
        ensures
            r@ == (HttpClientView {
                username: credentials.username@,
                password: credentials.password@,
                database: credentials.database@,
                hosts: Seq::empty(),
                max_batch: MAX_BATCH,
            }),
            r.writer() == serializer,
            r.transport() == hurl,
    {
        let r = HttpClient { credentials, serializer, hurl, hosts: Vec::new(), max_batch: MAX_BATCH };
        assert(r.hosts@.map_values(|h: &'a str| h@) =~= Seq::<Seq<char>>::empty());
        r
    }

    /// Adds a host. Requests go to the host that was added first.
    pub fn add_host(&mut self, host: &'a str)
        ensures
            final(self)@ == (HttpClientView { hosts: old(self)@.hosts.push(host@), ..old(self)@ }),
            final(self).writer() == old(self).writer(),
            final(self).transport() == old(self).transport(),
    {
        self.hosts.push(host);
        assert(self.hosts@.map_values(|h: &'a str| h@) =~= old(self).hosts@.map_values(
            |h: &'a str| h@,
        ).push(host@));
    }

    /// Sets the number of measurements that go into one write request.
    pub fn set_max_batch(&mut self, max_batch: u16)
        ensures
            final(self)@ == (HttpClientView { max_batch: max_batch, ..old(self)@ }),
            final(self).writer() == old(self).writer(),
            final(self).transport() == old(self).transport(),
    {
        self.max_batch = max_batch;
    }

    /// The number of hosts that were added.
    pub fn host_count(&self) -> (r: usize)
        ensures
            r == self@.hosts.len(),
    {
        self.hosts.len()
    }

    /// The number of measurements that go into one write request.
    pub fn max_batch(&self) -> (r: u16)
        ensures
            r == self@.max_batch,
    {
        self.max_batch
    }

    /// The host that requests go to: the first one.
    pub fn get_host(&self) -> (r: &'a str)
        requires
            self@.hosts.len() > 0,
        ensures
            r@ == self@.hosts[0],
    {
        self.hosts[0]
    }

    /// The serializer of the client.
    pub fn serializer(&self) -> (r: &S)
        ensures
            *r == self.writer(),
    {
        &self.serializer
    }

    /// The transport of the client.
    pub fn hurl(&self) -> (r: &H)
        ensures
            *r == self.transport(),
    {
        &self.hurl
    }

    fn auth(&self) -> (r: Option<Auth<'a>>)
        ensures
            (match r {
                Some(a) => Some(a@),
                None => None,
            }) == auth_of(self@),
    {
        if self.credentials.username.is_empty() || self.credentials.password.is_empty() {
            None
        } else {
            Some(Auth { username: self.credentials.username, password: self.credentials.password })
        }
    }

    /// Builds the request for a query.
    pub fn query_request(&self, q: String, epoch: Option<Precision>) -> (r: Request<'a>)
        requires
            self@.hosts.len() > 0,
        ensures
            r@ == query_request_of(self@, q@, epoch),
            r@.wf(),
    {
        let mut url = self.get_host().to_owned();
        url.append("/query");
        let mut query: Vec<(&'a str, String)> = Vec::new();
        query.push(("db", self.credentials.database.to_owned()));
        query.push(("q", q));
        if let Some(p) = epoch {
            query.push(("epoch", p.to_string()));
        }
        proof {
            assert(params(query@) =~= query_params(self@.database, q@, epoch));
            lemma_requests_well_formed(self@, q@, Seq::empty(), epoch);
        }
        Request { url, method: Method::GET, auth: self.auth(), query: Some(query), body: None }
    }

    /// Builds the request that writes the lines of one chunk.
    pub fn write_request(&self, lines: &Vec<String>, precision: Option<Precision>) -> (r: Request<
        'a,
    >)
        requires
            self@.hosts.len() > 0,
        ensures
            r@ == write_request_of(self@, texts(lines@), precision),
            r@.wf(),
    {
        let mut url = self.get_host().to_owned();
        url.append("/write");
        let mut query: Vec<(&'a str, String)> = Vec::new();
        query.push(("db", self.credentials.database.to_owned()));
        if let Some(p) = precision {
            query.push(("precision", p.to_string()));
        }
        proof {
            assert(params(query@) =~= write_params(self@.database, precision));
            lemma_requests_well_formed(self@, Seq::empty(), texts(lines@), precision);
        }
        Request {
            url,
            method: Method::POST,
            auth: self.auth(),
            query: Some(query),
            body: Some(join(lines, "\n")),
        }
    }
}

impl<'a, S: Serializer, H> HttpClient<'a, S, H> {
    /// Serializes the measurements of one chunk, one line for each.
    pub fn lines_of(&self, chunk: &[Measurement<'_>]) -> (r: Vec<String>)
        ensures
            serialized(&self.writer(), measured(chunk@), texts(r@)),
    {
        serialize_all(&self.serializer, chunk)
    }
}

impl<'a, S: Serializer, H: Hurl> HttpClient<'a, S, H> {
    /// A query of the client ended in `result`: the transport answered the
    /// request for the query with an outcome, and the result is what that
    /// outcome means.
    pub open spec fn queried(
        &self,
        q: Seq<char>,
        epoch: Option<Precision>,
        outcome: Outcome,
        result: Result<Seq<char>, ClientErrorView>,
    ) -> bool {
        &&& self.transport().answers(query_request_of(self@, q, epoch), outcome)
        &&& result == classified_query(outcome)
    }

    /// An account of a write of the client that ended in `result`: `outcomes`
    /// holds the answers on which the result rests, one for each chunk from
    /// the first on, and `lines` holds the lines of those chunks.
    ///
    /// Each of the answers is one that the transport gives to the request
    /// with the lines that the serializer wrote for the chunk. All answers
    /// but the last are successes. The last one either is a failure, and then
    /// its error is the result and the result rests on no later chunk, or it
    /// is a success too, and then there is an answer for every chunk and the
    /// write succeeded.
    ///
    /// The account does not count the calls of the transport. A client is
    /// used through `&self`, so that callers can share it, and the value of
    /// a shared transport does not tell what it was asked.
    pub open spec fn wrote(
        &self,
        measurements: Seq<MeasurementView>,
        precision: Option<Precision>,
        lines: Seq<Seq<Seq<char>>>,
        outcomes: Seq<Outcome>,
        result: Result<(), ClientErrorView>,
    ) -> bool {
        let pieces = chunks(measurements, self@.max_batch as int);
        &&& outcomes.len() <= pieces.len()
        &&& lines.len() == outcomes.len()
        &&& forall|c: int|
            0 <= c < outcomes.len() ==> serialized(&self.writer(), pieces[c], #[trigger] lines[c])
        &&& forall|c: int|
            0 <= c < outcomes.len() ==> self.transport().answers(
                write_request_of(self@, lines[c], precision),
                #[trigger] outcomes[c],
            )
        &&& sequential_write(outcomes) == (outcomes.len(), result)
        &&& result is Ok ==> outcomes.len() == pieces.len()
    }
}

impl<'a, S: Serializer, H: Hurl> Client for HttpClient<'a, S, H> {
    /// A write needs a host and a batch size that is not zero.
    open spec fn ready_to_write(&self) -> bool {
        self@.hosts.len() > 0 && self@.max_batch > 0
    }

    /// A query needs a host.
    open spec fn ready_to_query(&self) -> bool {
        self@.hosts.len() > 0
    }

    /// A write ends as `wrote` says, for the lines that the serializer wrote
    /// and the answers that the transport gave.
    open spec fn write_ends(
        &self,
        measurements: Seq<MeasurementView>,
        precision: Option<Precision>,
        result: Result<(), ClientErrorView>,
    ) -> bool {
        exists|lines: Seq<Seq<Seq<char>>>, outcomes: Seq<Outcome>| #[trigger]
            self.wrote(measurements, precision, lines, outcomes, result)
    }

    /// A query ends as `queried` says, for the answer that the transport
    /// gave.
    open spec fn query_ends(
        &self,
        q: Seq<char>,
        epoch: Option<Precision>,
        result: Result<Seq<char>, ClientErrorView>,
    ) -> bool {
        exists|outcome: Outcome| #[trigger] self.queried(q, epoch, outcome, result)
    }

    /// Runs a query and returns the body of the answer.
    ///
    /// The request is the one that `query_request` builds, and the result is
    /// what `classified_query` makes of the transport's answer to it.
    fn query(&self, q: String, epoch: Option<Precision>) -> (r: Result<String, ClientError>) {
        let request = self.query_request(q, epoch);
        let outcome = self.hurl.request(request);
        let ghost o = outcome_of(outcome);
        let r = classify_query(outcome);
        assert(self.queried(q@, epoch, o, answered(r)));
        r
    }

    /// Writes a single measurement.
    fn write_one(&self, measurement: Measurement<'_>, precision: Option<Precision>) -> (r:
        Result<(), ClientError>) {
        let one = [measurement];
        assert(measured(one@) =~= seq![measurement@]);
        self.write_many(one.as_slice(), precision)
    }

    /// Writes the measurements in chunks of at most `max_batch`, one request
    /// for each chunk, and stops at the first chunk that fails.
    ///
    /// With no measurements there is nothing to send and the write
    /// succeeds. Chunks that were written before one failed stay written.
    /// What holds of the result is the account that `wrote` gives.
    fn write_many(&self, measurements: &[Measurement<'_>], precision: Option<Precision>) -> (r:
        Result<(), ClientError>)
        ensures
            measurements@.len() == 0 ==> r is Ok,
    {
        let pieces = batch(measurements, self.max_batch as usize);
        let ghost all = chunks(measured(measurements@), self@.max_batch as int);
        proof {
            lemma_chunks_of_views(measurements@, self@.max_batch as int);
            assert(slices(pieces@).len() == pieces@.len());
            assert(all.len() == pieces@.len());
            assert forall|c: int| 0 <= c < pieces@.len() implies measured(
                #[trigger] pieces@[c]@,
            ) == all[c] by {
                assert(slices(pieces@)[c] == pieces@[c]@);
            }
        }
        let ghost mut lines: Seq<Seq<Seq<char>>> = Seq::empty();
        let ghost mut outcomes: Seq<Outcome> = Seq::empty();
        let mut step = first_step(pieces.len());
        proof {
            lemma_write_succeeds(outcomes);
        }
        loop
            invariant
                self@.hosts.len() > 0,
                all == chunks(measured(measurements@), self@.max_batch as int),
                all.len() == pieces@.len(),
                forall|c: int| 0 <= c < pieces@.len() ==> measured(#[trigger] pieces@[c]@) == all[c],
                lines.len() == outcomes.len(),
                outcomes.len() <= pieces@.len(),
                forall|c: int|
                    0 <= c < outcomes.len() ==> serialized(
                        &self.writer(),
                        all[c],
                        #[trigger] lines[c],
                    ),
                forall|c: int|
                    0 <= c < outcomes.len() ==> self.transport().answers(
                        write_request_of(self@, lines[c], precision),
                        #[trigger] outcomes[c],
                    ),
                step matches WriteStep::Send(i) ==> i < pieces.len() && outcomes.len() == i && (
                forall|c: int| 0 <= c < i ==> no_content(#[trigger] outcomes[c])),
                step matches WriteStep::Done(result) ==> sequential_write(outcomes) == (
                    outcomes.len(),
                    written(result),
                ) && (result is Ok ==> outcomes.len() == pieces@.len()),
                measurements@.len() == 0 ==> step@ == WriteStepView::Done(Ok(())),
            decreases
                    (match step {
                        WriteStep::Send(i) => pieces.len() - i + 1,
                        WriteStep::Done(_) => 0,
                    }),
        {
            match step {
                WriteStep::Done(r) => {
                    assert(self.wrote(measured(measurements@), precision, lines, outcomes, written(r)));
                    return r;
                },
                WriteStep::Send(i) => {
                    let chunk_lines = self.lines_of(pieces[i]);
                    let request = self.write_request(&chunk_lines, precision);
                    let outcome = self.hurl.request(request);
                    let ghost o = outcome_of(outcome);
                    step = next_step(pieces.len(), i, outcome);
                    proof {
                        let before = outcomes;
                        lines = lines.push(texts(chunk_lines@));
                        outcomes = outcomes.push(o);
                        assert(step@ == step_after(pieces.len(), i, o));
                        if no_content(o) {
                            assert forall|c: int| 0 <= c < outcomes.len() implies no_content(
                                #[trigger] outcomes[c],
                            ) by {
                                if c < i {
                                    assert(outcomes[c] == before[c]);
                                }
                            }
                            lemma_write_succeeds(outcomes);
                        } else {
                            assert forall|c: int| 0 <= c < i implies no_content(
                                #[trigger] outcomes[c],
                            ) by {
                                assert(outcomes[c] == before[c]);
                            }
                            lemma_write_fails_fast(outcomes, i as int);
                        }
                    }
                },
            }
        }
    }
}

impl<'a, S: Serializer, H: Hurl> HttpClient<'a, S, H> {
    /// Where every answer of the account of a write is status 204, the write
    /// succeeded, and the account holds one answer for each chunk.
    pub proof fn lemma_all_written(
        &self,
        measurements: Seq<MeasurementView>,
        precision: Option<Precision>,
        lines: Seq<Seq<Seq<char>>>,
        outcomes: Seq<Outcome>,
        result: Result<(), ClientErrorView>,
    )
        requires
            self.wrote(measurements, precision, lines, outcomes, result),
            forall|c: int| 0 <= c < outcomes.len() ==> no_content(#[trigger] outcomes[c]),
        ensures
            result is Ok,
            outcomes.len() == chunks(measurements, self@.max_batch as int).len(),
    {
        lemma_write_succeeds(outcomes);
    }

    /// Where an answer of the account of a write is anything but status 204,
    /// it is the last of the account: the result rests on no chunk after it,
    /// and the write failed with what the answer means.
    pub proof fn lemma_stopped_at_failure(
        &self,
        measurements: Seq<MeasurementView>,
        precision: Option<Precision>,
        lines: Seq<Seq<Seq<char>>>,
        outcomes: Seq<Outcome>,
        result: Result<(), ClientErrorView>,
        failed: int,
    )
        requires
            self.wrote(measurements, precision, lines, outcomes, result),
            0 <= failed < outcomes.len(),
            !no_content(outcomes[failed]),
        ensures
            failed == outcomes.len() - 1,
            result == classified_write(outcomes[failed]),
            result is Err,
    {
        lemma_sent_until_failure(outcomes, failed);
        let first = first_to_fail(outcomes);
        lemma_write_fails_fast(outcomes, first);
    }
}

} // verus!
