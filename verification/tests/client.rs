use influent::client::answer::{
    classify_query, classify_write, first_failure, first_step, next_step, WriteStep,
};
use influent::client::batch::batch;
use influent::client::http::{HttpClient, MAX_BATCH};
use influent::client::{Client, ClientError, Credentials, Precision};
use influent::create_client;
use influent::hurl::{Hurl, Method, Request, Response};
use influent::measurement::{Measurement, Value};
use influent::serializer::line::LineSerializer;
use influent::serializer::Serializer;
use std::cell::{Cell, RefCell};

struct MockSerializer {
    serialize_count: Cell<u16>,
}

impl MockSerializer {
    fn new() -> MockSerializer {
        MockSerializer { serialize_count: Cell::new(0) }
    }
}

impl Serializer for MockSerializer {
    fn serialize(&self, _measurement: &Measurement) -> String {
        self.serialize_count.set(self.serialize_count.get() + 1);
        "serialized".to_string()
    }
}

struct MockHurl {
    request_count: Cell<u16>,
    result: Box<dyn Fn() -> Result<Response, String>>,
}

impl MockHurl {
    fn new(result: Box<dyn Fn() -> Result<Response, String>>) -> MockHurl {
        MockHurl { request_count: Cell::new(0), result }
    }
}

impl Hurl for MockHurl {
    fn request(&self, _req: Request) -> Result<Response, String> {
        self.request_count.set(self.request_count.get() + 1);
        let ref f = self.result;
        f()
    }
}

fn before<'a>(
    result: Box<dyn Fn() -> Result<Response, String>>,
) -> HttpClient<'a, MockSerializer, MockHurl> {
    let credentials = Credentials { username: "gobwas", password: "1234", database: "test" };

    let serializer = MockSerializer::new();
    let hurl = MockHurl::new(result);

    HttpClient::new(credentials, serializer, hurl)
}

#[test]
fn mod_test_write_one() {
    let mut client = before(Box::new(|| Ok(Response { status: 200, body: "Ok".to_string() })));
    client.add_host("http://localhost:8086");
    let _ = client.write_one(Measurement::new("key"), Some(Precision::Nanoseconds));
}

#[test]
fn mod_test_write_many() {
    let mut client = before(Box::new(|| Ok(Response { status: 200, body: "Ok".to_string() })));
    client.add_host("http://localhost:8086");
    let _ = client.write_many(&[Measurement::new("key")], Some(Precision::Nanoseconds));
}

#[test]
fn http_test_write_one() {
    let mut client = before(Box::new(|| Ok(Response { status: 204, body: "Ok".to_string() })));
    client.add_host("http://localhost:8086");
    if let Err(e) = client.write_one(Measurement::new("key"), Some(Precision::Nanoseconds)) {
        panic!("{:?}", e);
    }
}

#[test]
fn http_test_write_many() {
    let mut client = before(Box::new(|| Ok(Response { status: 204, body: "Ok".to_string() })));
    client.add_host("http://localhost:8086");
    assert!(client.write_many(&[Measurement::new("key")], Some(Precision::Nanoseconds)).is_ok());
}

/// A transport that records what it is asked and answers from a list.
struct ScriptedHurl {
    seen: RefCell<Vec<(String, Method, Option<(String, String)>, Vec<(String, String)>, Option<String>)>>,
    answers: RefCell<Vec<Result<Response, String>>>,
}

impl ScriptedHurl {
    fn new(mut answers: Vec<Result<Response, String>>) -> ScriptedHurl {
        answers.reverse();
        ScriptedHurl { seen: RefCell::new(Vec::new()), answers: RefCell::new(answers) }
    }
}

impl Hurl for ScriptedHurl {
    fn request(&self, req: Request) -> Result<Response, String> {
        let auth = req.auth.map(|a| (a.username.to_string(), a.password.to_string()));
        let query = req
            .query
            .unwrap_or_default()
            .into_iter()
            .map(|(name, value)| (name.to_string(), value))
            .collect();
        self.seen.borrow_mut().push((req.url, req.method, auth, query, req.body));
        self.answers.borrow_mut().pop().expect("no answer left")
    }
}

fn status(code: u16, body: &str) -> Result<Response, String> {
    Ok(Response { status: code, body: body.to_string() })
}

fn scripted<'a>(
    answers: Vec<Result<Response, String>>,
) -> HttpClient<'a, LineSerializer, ScriptedHurl> {
    let credentials = Credentials { username: "gobwas", password: "1234", database: "test" };
    let mut client = HttpClient::new(credentials, LineSerializer::new(), ScriptedHurl::new(answers));
    client.add_host("http://localhost:8086");
    client.add_host("http://example.org:8086");
    client
}

fn numbered(keys: &[String]) -> Vec<Measurement<'_>> {
    keys.iter()
        .map(|k| {
            let mut m = Measurement::new(k);
            m.add_field("v", Value::Integer(1));
            m
        })
        .collect()
}

fn keys(n: usize) -> Vec<String> {
    (1..=n).map(|i| i.to_string()).collect()
}

#[test]
fn batch_of_twelve_thousand() {
    let keys = keys(12000);
    let measurements = numbered(&keys);
    let chunks = batch(&measurements, 5000);
    let sizes: Vec<usize> = chunks.iter().map(|c| c.len()).collect();
    assert_eq!(vec![5000, 5000, 2000], sizes);
    let mut next = 1;
    for chunk in chunks {
        for m in chunk {
            assert_eq!(next.to_string(), m.key());
            next += 1;
        }
    }
    assert_eq!(12001, next);
}

#[test]
fn batch_edges() {
    let keys = keys(10);
    let measurements = numbered(&keys);
    assert_eq!(0, batch(&measurements[..0], 5).len());
    assert_eq!(vec![10], batch(&measurements, 10).iter().map(|c| c.len()).collect::<Vec<_>>());
    assert_eq!(vec![10], batch(&measurements, 11).iter().map(|c| c.len()).collect::<Vec<_>>());
    assert_eq!(vec![5, 5], batch(&measurements, 5).iter().map(|c| c.len()).collect::<Vec<_>>());
    assert_eq!(
        vec![3, 3, 3, 1],
        batch(&measurements, 3).iter().map(|c| c.len()).collect::<Vec<_>>()
    );
    assert_eq!(10, batch(&measurements, 1).len());
    assert_eq!(1, batch(&measurements, usize::MAX).len());
}

#[test]
fn default_batch_size() {
    assert_eq!(5000, MAX_BATCH);
    let client = before(Box::new(|| status(204, "")));
    assert_eq!(5000, client.max_batch);
    assert_eq!(5000, client.max_batch());
    assert_eq!(0, client.host_count());
}

#[test]
fn write_success_sends_one_request_per_chunk() {
    let keys = keys(12000);
    let measurements = numbered(&keys);
    let mut client = before(Box::new(|| status(204, "")));
    client.add_host("http://localhost:8086");
    assert!(client.write_many(&measurements, None).is_ok());
    assert_eq!(3, client.hurl().request_count.get());
    assert_eq!(12000, client.serializer().serialize_count.get());
}

#[test]
fn write_of_nothing_sends_nothing() {
    let client = scripted(vec![]);
    assert!(client.write_many(&[], Some(Precision::Seconds)).is_ok());
    assert!(client.hurl().seen.borrow().is_empty());
}

#[test]
fn write_stops_at_first_failure() {
    let keys = keys(12000);
    let measurements = numbered(&keys);
    let client = scripted(vec![status(204, ""), status(400, "bad line"), status(204, "")]);
    match client.write_many(&measurements, None) {
        Err(ClientError::Syntax(body)) => assert_eq!("bad line", body),
        other => panic!("{:?}", other),
    }
    assert_eq!(2, client.hurl().seen.borrow().len());
    assert_eq!(1, client.hurl().answers.borrow().len());
}

#[test]
fn write_request_is_built_as_documented() {
    let client = scripted(vec![status(204, "")]);
    let mut a = Measurement::new("cpu");
    a.add_tag("host", "a b");
    a.add_field("load", Value::Integer(3));
    a.set_timestamp(7);
    let mut b = Measurement::new("mem");
    b.add_field("free", Value::Boolean(true));
    assert!(client.write_many(&[a, b], Some(Precision::Milliseconds)).is_ok());
    let seen = client.hurl().seen.borrow();
    assert_eq!(1, seen.len());
    let (url, method, auth, query, body) = &seen[0];
    assert_eq!("http://localhost:8086/write", url);
    assert_eq!(Method::POST, *method);
    assert_eq!(&Some(("gobwas".to_string(), "1234".to_string())), auth);
    assert_eq!(
        &vec![("db".to_string(), "test".to_string()), ("precision".to_string(), "ms".to_string())],
        query
    );
    assert_eq!(&Some("cpu,host=a\\ b load=3i 7\nmem free=t".to_string()), body);
}

#[test]
fn write_request_without_precision() {
    let client = scripted(vec![]);
    let request = client.write_request(&vec!["a".to_string()], None);
    assert_eq!(Some(vec![("db", "test".to_string())]), request.query);
    assert_eq!(Some("a".to_string()), request.body);
    let empty = client.write_request(&vec![], None);
    assert_eq!(Some("".to_string()), empty.body);
    let three = client.write_request(
        &vec!["a".to_string(), "".to_string(), "c".to_string()],
        Some(Precision::Hours),
    );
    assert_eq!(Some("a\n\nc".to_string()), three.body);
    assert_eq!(
        Some(vec![("db", "test".to_string()), ("precision", "h".to_string())]),
        three.query
    );
}

#[test]
fn query_request_is_built_as_documented() {
    let client = scripted(vec![status(200, "{\"results\":[]}")]);
    let answer = client.query("select * from \"sut\"".to_string(), Some(Precision::Seconds));
    assert_eq!("{\"results\":[]}", answer.unwrap());
    let seen = client.hurl().seen.borrow();
    let (url, method, auth, query, body) = &seen[0];
    assert_eq!("http://localhost:8086/query", url);
    assert_eq!(Method::GET, *method);
    assert_eq!(&Some(("gobwas".to_string(), "1234".to_string())), auth);
    assert_eq!(
        &vec![
            ("db".to_string(), "test".to_string()),
            ("q".to_string(), "select * from \"sut\"".to_string()),
            ("epoch".to_string(), "s".to_string()),
        ],
        query
    );
    assert_eq!(&None, body);
}

#[test]
fn query_request_without_epoch() {
    let client = scripted(vec![]);
    let request = client.query_request("show databases".to_string(), None);
    assert_eq!(
        Some(vec![("db", "test".to_string()), ("q", "show databases".to_string())]),
        request.query
    );
    assert!(request.body.is_none());
}

#[test]
fn authentication_needs_name_and_password() {
    for (username, password, expected) in [
        ("", "", false),
        ("gobwas", "", false),
        ("", "1234", false),
        ("gobwas", "1234", true),
    ] {
        let credentials = Credentials { username, password, database: "test" };
        let mut client = HttpClient::new(credentials, LineSerializer::new(), ScriptedHurl::new(vec![]));
        client.add_host("http://localhost:8086");
        let query = client.query_request("q".to_string(), None);
        assert_eq!(expected, query.auth.is_some());
        let write = client.write_request(&vec![], None);
        assert_eq!(expected, write.auth.is_some());
        if let Some(auth) = write.auth {
            assert_eq!("gobwas", auth.username);
            assert_eq!("1234", auth.password);
        }
    }
}

#[test]
fn query_classification() {
    assert_eq!("body", classify_query(status(200, "body")).unwrap());
    match classify_query(status(400, "syntax")) {
        Err(ClientError::Syntax(body)) => assert_eq!("syntax", body),
        other => panic!("{:?}", other),
    }
    match classify_query(status(500, "boom")) {
        Err(ClientError::Unexpected(text)) => {
            assert_eq!("Unexpected response. Status: 500; Body: \"boom\"", text)
        }
        other => panic!("{:?}", other),
    }
    match classify_query(status(204, "")) {
        Err(ClientError::Unexpected(text)) => {
            assert_eq!("Unexpected response. Status: 204; Body: \"\"", text)
        }
        other => panic!("{:?}", other),
    }
    match classify_query(Err("connection refused".to_string())) {
        Err(ClientError::Communication(text)) => assert_eq!("connection refused", text),
        other => panic!("{:?}", other),
    }
}

#[test]
fn write_classification() {
    assert!(classify_write(status(204, "ignored")).is_ok());
    match classify_write(status(200, "partial")) {
        Err(ClientError::CouldNotComplete(body)) => assert_eq!("partial", body),
        other => panic!("{:?}", other),
    }
    match classify_write(status(400, "syntax")) {
        Err(ClientError::Syntax(body)) => assert_eq!("syntax", body),
        other => panic!("{:?}", other),
    }
    match classify_write(status(0, "")) {
        Err(ClientError::Unexpected(text)) => {
            assert_eq!("Unexpected response. Status: 0; Body: \"\"", text)
        }
        other => panic!("{:?}", other),
    }
    match classify_write(status(65535, "x\"y")) {
        Err(ClientError::Unexpected(text)) => {
            assert_eq!("Unexpected response. Status: 65535; Body: \"x\"y\"", text)
        }
        other => panic!("{:?}", other),
    }
    match classify_write(Err("timeout".to_string())) {
        Err(ClientError::Communication(text)) => assert_eq!("timeout", text),
        other => panic!("{:?}", other),
    }
}

#[test]
fn query_through_client() {
    let client = scripted(vec![status(500, "down"), Err("unreachable".to_string())]);
    match client.query("q".to_string(), None) {
        Err(ClientError::Unexpected(text)) => assert!(text.contains("500")),
        other => panic!("{:?}", other),
    }
    match client.query("q".to_string(), None) {
        Err(ClientError::Communication(text)) => assert_eq!("unreachable", text),
        other => panic!("{:?}", other),
    }
}

#[test]
fn steps_of_a_write() {
    assert!(matches!(first_step(0), WriteStep::Done(Ok(()))));
    assert!(matches!(first_step(3), WriteStep::Send(0)));
    assert!(matches!(next_step(3, 0, status(204, "")), WriteStep::Send(1)));
    assert!(matches!(next_step(3, 1, status(204, "")), WriteStep::Send(2)));
    assert!(matches!(next_step(3, 2, status(204, "")), WriteStep::Done(Ok(()))));
    assert!(matches!(
        next_step(3, 0, status(400, "")),
        WriteStep::Done(Err(ClientError::Syntax(_)))
    ));
    assert!(matches!(
        next_step(3, 2, status(200, "")),
        WriteStep::Done(Err(ClientError::CouldNotComplete(_)))
    ));
    assert!(matches!(
        next_step(1, 0, Err("gone".to_string())),
        WriteStep::Done(Err(ClientError::Communication(_)))
    ));
}

#[test]
fn earliest_failure_is_reported() {
    assert!(first_failure(vec![]).is_ok());
    assert!(first_failure(vec![status(204, ""), status(204, "")]).is_ok());
    match first_failure(vec![status(204, ""), status(400, "second"), status(500, "third")]) {
        Err(ClientError::Syntax(body)) => assert_eq!("second", body),
        other => panic!("{:?}", other),
    }
    match first_failure(vec![Err("first".to_string()), status(400, "second")]) {
        Err(ClientError::Communication(text)) => assert_eq!("first", text),
        other => panic!("{:?}", other),
    }
}

#[test]
fn precision_codes() {
    assert_eq!("n", Precision::Nanoseconds.to_string());
    assert_eq!("u", Precision::Microseconds.to_string());
    assert_eq!("ms", Precision::Milliseconds.to_string());
    assert_eq!("s", Precision::Seconds.to_string());
    assert_eq!("m", Precision::Minutes.to_string());
    assert_eq!("h", Precision::Hours.to_string());
}

#[test]
fn response_to_string_is_the_body() {
    assert_eq!("body", Response { status: 200, body: "body".to_string() }.to_string());
}

#[test]
fn created_client_uses_first_host() {
    let credentials = Credentials { username: "gobwas", password: "xxx", database: "mydb" };
    let client = create_client(credentials, vec!["http://localhost:8086", "http://other:8086"]);
    assert_eq!(2, client.host_count());
    assert_eq!("http://localhost:8086", client.get_host());
    assert_eq!(5000, client.max_batch);
    let request = client.query_request("q".to_string(), None);
    assert_eq!("http://localhost:8086/query", request.url);
    assert_eq!(Some(vec![("db", "mydb".to_string()), ("q", "q".to_string())]), request.query);
}

#[test]
fn smaller_batches() {
    let keys = keys(5);
    let measurements = numbered(&keys);
    let mut client = scripted(vec![status(204, ""), status(204, ""), status(204, "")]);
    client.set_max_batch(2);
    assert!(client.write_many(&measurements, None).is_ok());
    let seen = client.hurl().seen.borrow();
    let bodies: Vec<String> = seen.iter().map(|s| s.4.clone().unwrap()).collect();
    assert_eq!(vec!["1 v=1i\n2 v=1i", "3 v=1i\n4 v=1i", "5 v=1i"], bodies);
}

#[test]
fn boxed_parts() {
    let credentials = Credentials { username: "", password: "", database: "test" };
    let serializer: Box<dyn Serializer + Send + Sync> = Box::new(LineSerializer::new());
    let hurl: Box<dyn Hurl> = Box::new(ScriptedHurl::new(vec![status(204, "")]));
    let mut client = HttpClient::new(credentials, serializer, hurl);
    client.add_host("http://localhost:8086");
    assert!(client.write_one(Measurement::new("key"), None).is_ok());
}

#[test]
fn io_errors_are_failures_of_communication() {
    let e = std::io::Error::new(std::io::ErrorKind::Other, "socket closed");
    match ClientError::from(e) {
        ClientError::Communication(text) => assert_eq!("socket closed", text),
        other => panic!("{:?}", other),
    }
}
