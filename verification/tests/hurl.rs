use influent::hurl::address::{append_params, has_room, parse_error, request_address, room_after};
use influent::hurl::hyper::{basic, credentials, HyperHurl};
use influent::hurl::reqwest::ReqwestHurl;
use influent::hurl::{Auth, Method, Request};

fn request<'a>(url: &str, query: Option<Vec<(&'a str, String)>>) -> Request<'a> {
    Request { url: url.to_string(), method: Method::GET, auth: None, query, body: None }
}

#[test]
fn address_is_written_by_the_url_parser() {
    assert_eq!(
        Some(Ok("http://localhost:8086/".to_string())),
        request_address("http://localhost:8086", &None)
    );
    assert_eq!(
        Some(Ok("http://localhost:8086/write".to_string())),
        request_address("HTTP://LOCALHOST:8086/write", &None)
    );
}

#[test]
fn address_of_a_bad_url() {
    assert_eq!(
        Some(Err("could not parse url: RelativeUrlWithoutBase".to_string())),
        request_address("localhost/write", &None)
    );
    assert_eq!(
        Some(Err("could not parse url: EmptyHost".to_string())),
        request_address("http://", &Some(vec![("db", "test".to_string())]))
    );
    assert_eq!(
        Some(Err("could not parse url: InvalidPort".to_string())),
        request_address("http://localhost:port/", &None)
    );
}

#[test]
fn address_takes_the_query() {
    assert_eq!(
        Some(Ok("http://localhost:8086/write?db=test&precision=ms".to_string())),
        request_address(
            "http://localhost:8086/write",
            &Some(vec![("db", "test".to_string()), ("precision", "ms".to_string())])
        )
    );
    assert_eq!(
        Some(Ok("http://localhost:8086/query?db=my+db&q=select+*+from+%22sut%22".to_string())),
        request_address(
            "http://localhost:8086/query",
            &Some(vec![("db", "my db".to_string()), ("q", "select * from \"sut\"".to_string())])
        )
    );
}

#[test]
fn address_keeps_the_pairs_it_has() {
    assert_eq!(
        Some(Ok("http://localhost:8086/query?pretty=true&x=a+b&db=test#top".to_string())),
        request_address(
            "http://localhost:8086/query?pretty=true&x=a%20b#top",
            &Some(vec![("db", "test".to_string())])
        )
    );
}

#[test]
fn address_with_an_empty_query() {
    assert_eq!(
        Some(Ok("http://localhost:8086/query?".to_string())),
        request_address("http://localhost:8086/query", &Some(vec![]))
    );
    assert_eq!(
        Some(Ok("http://localhost:8086/query?a=1".to_string())),
        request_address("http://localhost:8086/query?a=1", &None)
    );
}

#[test]
fn reqwest_call() {
    let hurl = ReqwestHurl::new();
    let call = hurl
        .prepare(Request {
            url: "http://localhost:8086/write".to_string(),
            method: Method::POST,
            auth: Some(Auth { username: "gobwas", password: "1234" }),
            query: Some(vec![("db", "test".to_string())]),
            body: Some("key v=1i".to_string()),
        })
        .unwrap()
        .unwrap();
    assert_eq!(Method::POST, call.method);
    assert_eq!("http://localhost:8086/write?db=test", call.url);
    assert_eq!("key v=1i", call.body);
    let auth = call.auth.unwrap();
    assert_eq!("gobwas", auth.username);
    assert_eq!("1234", auth.password);
}

#[test]
fn reqwest_call_without_body_and_auth() {
    let call = ReqwestHurl::new().prepare(request("http://localhost:8086/query", None));
    let call = call.unwrap().unwrap();
    assert_eq!(Method::GET, call.method);
    assert_eq!("http://localhost:8086/query", call.url);
    assert_eq!("", call.body);
    assert!(call.auth.is_none());
}

#[test]
fn reqwest_call_for_a_bad_url() {
    let call = ReqwestHurl::new().prepare(request("not a url", None));
    assert_eq!("could not parse url: RelativeUrlWithoutBase", call.unwrap().unwrap_err());
}

#[test]
fn hyper_call() {
    let hurl = HyperHurl::new();
    let call = hurl
        .prepare(Request {
            url: "http://localhost:8086/write".to_string(),
            method: Method::POST,
            auth: Some(Auth { username: "gobwas", password: "1234" }),
            query: Some(vec![("db", "test".to_string()), ("precision", "n".to_string())]),
            body: Some("key v=1i".to_string()),
        })
        .unwrap()
        .unwrap();
    assert_eq!(Method::POST, call.method);
    assert_eq!("http://localhost:8086/write?db=test&precision=n", call.url);
    assert_eq!("key v=1i", call.body);
    assert_eq!(Some("Basic Z29id2FzOjEyMzQ=".to_string()), call.authorization);
}

#[test]
fn hyper_call_without_body_and_auth() {
    let call = HyperHurl::new().prepare(request("http://localhost:8086/query", None));
    let call = call.unwrap().unwrap();
    assert_eq!("", call.body);
    assert_eq!(None, call.authorization);
}

#[test]
fn hyper_call_for_a_bad_url() {
    let call = HyperHurl::new().prepare(request("//localhost", None));
    assert_eq!("could not parse url: RelativeUrlWithoutBase", call.unwrap().unwrap_err());
}

#[test]
fn credentials_are_joined_by_a_colon() {
    assert_eq!("gobwas:1234", credentials(&Auth { username: "gobwas", password: "1234" }));
    assert_eq!(":", credentials(&Auth { username: "", password: "" }));
    assert_eq!("a:b:c", credentials(&Auth { username: "a", password: "b:c" }));
}

#[test]
fn cost_of_pairs() {
    let pairs = vec![("db".to_string(), "test".to_string())];
    // Three bytes for each of the six bytes, and two for `=` and `&`.
    assert_eq!(Some(80), room_after(100, &pairs));
    assert_eq!(Some(0), room_after(20, &pairs));
    assert_eq!(None, room_after(19, &pairs));
    assert_eq!(None, room_after(0, &pairs));
    assert_eq!(Some(7), room_after(7, &vec![]));
    let two = vec![("a".to_string(), "b".to_string()), ("\u{e9}".to_string(), "".to_string())];
    assert_eq!(Some(0), room_after(16, &two));
    assert_eq!(None, room_after(15, &two));
    assert_eq!(Some(u32::MAX - 16), room_after(u32::MAX, &two));
}

#[test]
fn room_in_a_url() {
    let url = url::Url::parse("http://localhost:8086/write").unwrap();
    assert!(has_room(&url, &vec![]));
    assert!(has_room(&url, &vec![("db".to_string(), "test".to_string())]));
}

#[test]
fn params_are_appended() {
    let mut pairs = vec![("a".to_string(), "1".to_string())];
    append_params(&mut pairs, &vec![("db", "test".to_string()), ("q", "x y".to_string())]);
    assert_eq!(
        vec![
            ("a".to_string(), "1".to_string()),
            ("db".to_string(), "test".to_string()),
            ("q".to_string(), "x y".to_string()),
        ],
        pairs
    );
    append_params(&mut pairs, &vec![]);
    assert_eq!(3, pairs.len());
}

#[test]
fn text_of_a_parse_error() {
    assert_eq!("could not parse url: EmptyHost", parse_error("EmptyHost"));
    assert_eq!("could not parse url: ", parse_error(""));
}

#[test]
fn basic_header_names_its_scheme() {
    assert_eq!("Basic Z29id2FzOjEyMzQ=", basic("Z29id2FzOjEyMzQ="));
    assert_eq!("Basic ", basic(""));
}

#[test]
fn hyper_header_for_other_credentials() {
    let call = HyperHurl::new()
        .prepare(Request {
            url: "http://localhost:8086/query".to_string(),
            method: Method::GET,
            auth: Some(Auth { username: "Aladdin", password: "open sesame" }),
            query: None,
            body: None,
        })
        .unwrap()
        .unwrap();
    assert_eq!(Some("Basic QWxhZGRpbjpvcGVuIHNlc2FtZQ==".to_string()), call.authorization);
}
