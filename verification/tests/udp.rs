use influent::client::udp::{pack, UdpClient, MAX_UDP_PACKET_LEN};
use influent::client::{ClientError, Precision};
use influent::measurement::{Measurement, Value};
use influent::serializer::line::LineSerializer;

fn packed(lines: &[&str], limit: usize) -> Vec<String> {
    let lines: Vec<String> = lines.iter().map(|l| l.to_string()).collect();
    let mut out = Vec::new();
    pack(&mut out, &lines, limit);
    out.into_iter().map(|d| String::from_utf8(d).unwrap()).collect()
}

#[test]
fn udp_test_write_one() {
    let mut client = UdpClient::new(LineSerializer::new());
    client.add_host("127.0.0.1:8089");
    let mut m = Measurement::new("lol");
    let val = Value::Integer(1488);
    m.add_field("value", val);
    let datagrams = client.datagrams(&[m]);
    assert_eq!(vec![b"lol value=1488i\n".to_vec()], datagrams);
    assert_eq!("127.0.0.1:8089", client.get_host());
}

#[test]
fn udp_test_write_many() {
    let mut client = UdpClient::new(LineSerializer::new());
    client.add_host("127.0.0.1:8089");
    let datagrams = client.datagrams(&[Measurement::new("kek")]);
    assert_eq!(vec![b"kek\n".to_vec()], datagrams);
}

#[test]
fn udp_refuses_queries() {
    let client = UdpClient::new(LineSerializer::new());
    match client.query("select 1".to_string(), Some(Precision::Seconds)) {
        Err(ClientError::CouldNotComplete(text)) => {
            assert_eq!("querying is not supported over UDP", text)
        }
        other => panic!("{:?}", other),
    }
}

#[test]
fn udp_defaults() {
    let client = UdpClient::new(LineSerializer::new());
    assert_eq!(5000, client.max_batch);
    assert_eq!(0, client.host_count());
    assert_eq!(65535, MAX_UDP_PACKET_LEN);
    assert!(client.datagrams(&[]).is_empty());
}

#[test]
fn lines_share_a_datagram_while_they_fit() {
    assert_eq!(vec!["ab\ncd\n"], packed(&["ab", "cd"], 10));
    // "ab\n" holds 3 bytes; with "cd" that makes 5, which is not under 5.
    assert_eq!(vec!["ab\n", "cd\n"], packed(&["ab", "cd"], 5));
    assert_eq!(vec!["ab\ncd\n"], packed(&["ab", "cd"], 6));
    assert_eq!(vec!["a\nb\n", "c\nd\n", "e\n"], packed(&["a", "b", "c", "d", "e"], 4));
}

#[test]
fn nothing_to_pack() {
    assert!(packed(&[], 10).is_empty());
    assert_eq!(vec!["\n"], packed(&[""], 10));
}

#[test]
fn a_line_that_reaches_the_limit() {
    // The buffer is sent as it is, even where it is empty, and the line
    // follows in a datagram of its own.
    assert_eq!(vec!["", "abcdef\n"], packed(&["abcdef"], 6));
    assert_eq!(vec!["x\n", "abcdef\n", "y\n"], packed(&["x", "abcdef", "y"], 6));
    assert_eq!(vec!["abcde\n"], packed(&["abcde"], 6));
}

#[test]
fn packing_appends_to_what_is_there() {
    let mut out = vec![b"first\n".to_vec()];
    pack(&mut out, &vec!["second".to_string()], 100);
    assert_eq!(vec![b"first\n".to_vec(), b"second\n".to_vec()], out);
}

#[test]
fn bytes_count_not_characters() {
    // Two characters of two bytes each.
    assert_eq!(vec!["\u{e9}\u{e9}\n", "a\n"], packed(&["\u{e9}\u{e9}", "a"], 6));
    assert_eq!(vec!["ee\na\n"], packed(&["ee", "a"], 6));
}

#[test]
fn datagrams_do_not_cross_chunks() {
    let mut client = UdpClient::new(LineSerializer::new());
    client.max_batch = 2;
    let datagrams =
        client.datagrams(&[Measurement::new("a"), Measurement::new("b"), Measurement::new("c")]);
    assert_eq!(vec![b"a\nb\n".to_vec(), b"c\n".to_vec()], datagrams);
}

#[test]
fn datagrams_stay_under_the_limit() {
    let keys: Vec<String> = (0..3000).map(|i| format!("measurement_number_{:06}", i)).collect();
    let measurements: Vec<Measurement> = keys
        .iter()
        .map(|k| {
            let mut m = Measurement::new(k);
            m.add_field("value", Value::Integer(1));
            m
        })
        .collect();
    let client = UdpClient::new(LineSerializer::new());
    let datagrams = client.datagrams(&measurements);
    assert!(datagrams.len() > 1);
    let mut all = Vec::new();
    for d in &datagrams {
        assert!(!d.is_empty() && d.len() <= MAX_UDP_PACKET_LEN);
        all.extend_from_slice(d);
    }
    let expected: String = keys.iter().map(|k| format!("{} value=1i\n", k)).collect();
    assert_eq!(expected.into_bytes(), all);
}
