use homebase::dns::{address_lines, decode_answers, encode_query, nameserver_from_conf, spec_from_txt, strip_quotes, DnsError};
use homebase::resolve::RecordType;

fn response_with_a_record() -> Vec<u8> {
    let mut b: Vec<u8> = vec![0x12, 0x34, 0x81, 0x80, 0, 1, 0, 1, 0, 0, 0, 0];
    b.extend_from_slice(&[7, b'e', b'x', b'a', b'm', b'p', b'l', b'e', 3, b'c', b'o', b'm', 0, 0, 1, 0, 1]);
    b.extend_from_slice(&[0xc0, 0x0c, 0, 1, 0, 1, 0, 0, 0, 0x3c, 0, 4, 192, 0, 2, 7]);
    b
}

#[test]
fn encoded_query_carries_the_name() {
    let q = encode_query("example.com", RecordType::A).unwrap();
    assert!(q.windows(7).any(|w| w == b"example"));
    assert_eq!(&q[4..12], &[0, 1, 0, 0, 0, 0, 0, 1]);
    let n = q.len();
    assert_eq!(&q[n - 15..n - 11], &[0, 1, 0, 1]);
    assert_eq!(&q[n - 11..], &[0, 0, 41, 16, 0, 0, 0, 0, 0, 0, 0]);
    let again = encode_query("example.com", RecordType::A).unwrap();
    assert_eq!(&q[2..], &again[2..]);
}

#[test]
fn encoded_query_carries_the_type_code() {
    let q = encode_query("example.com", RecordType::Aaaa).unwrap();
    let n = q.len();
    assert_eq!(&q[n - 15..n - 11], &[0, 28, 0, 1]);
    let t = encode_query("example.com", RecordType::Txt).unwrap();
    let n = t.len();
    assert_eq!(&t[n - 15..n - 11], &[0, 16, 0, 1]);
}

#[test]
fn overlong_label_is_not_encoded() {
    let name = format!("{}.example", "a".repeat(70));
    assert!(matches!(encode_query(&name, RecordType::A), Err(DnsError::Encode { .. })));
}

#[test]
fn decodes_answer_addresses() {
    let texts = decode_answers(&response_with_a_record()).unwrap();
    assert_eq!(texts, vec!["192.0.2.7".to_string()]);
    let lines = address_lines("EXAMPLE.COM", RecordType::A, &texts).unwrap();
    assert_eq!(lines, vec!["192.0.2.7/32".to_string()]);
}

#[test]
fn garbage_does_not_decode() {
    assert!(matches!(decode_answers(&[1, 2, 3]), Err(DnsError::Decode { .. })));
}

#[test]
fn aaaa_answers_get_full_prefix() {
    let lines = address_lines("H", RecordType::Aaaa, &vec!["2001:db8::1".to_string()]).unwrap();
    assert_eq!(lines, vec!["2001:db8::1/128".to_string()]);
}

#[test]
fn no_answers_is_no_results() {
    match address_lines("EXAMPLE.COM", RecordType::Aaaa, &vec![]) {
        Err(DnsError::NoResults { query }) => assert_eq!(query, "AAAA:EXAMPLE.COM"),
        other => panic!("unexpected {:?}", other),
    }
}

#[test]
fn quotes_are_dropped() {
    assert_eq!(strip_quotes("\"AS:64500 IPV4:10.0.0.0/8\""), "AS:64500 IPV4:10.0.0.0/8");
    assert_eq!(strip_quotes(""), "");
    assert_eq!(spec_from_txt(&vec!["\"a\"".to_string(), "b".to_string()]), Some("a".to_string()));
    assert_eq!(spec_from_txt(&vec![]), None);
}

#[test]
fn first_nameserver_line_wins() {
    let conf = "# generated\n\nsearch example.com\nnameserver 192.0.2.53\nnameserver 192.0.2.54\n";
    assert_eq!(nameserver_from_conf(conf), Some("192.0.2.53".to_string()));
    assert_eq!(nameserver_from_conf("#nameserver 1.1.1.1\nnameserver 2001:db8::53 # v6\r\n"), Some("2001:db8::53".to_string()));
    assert_eq!(nameserver_from_conf("nameserver 9.9.9.9\r\n"), Some("9.9.9.9".to_string()));
    assert_eq!(nameserver_from_conf("nameserver 192.0.2.1\rx more\n"), Some("192.0.2.1\rx".to_string()));
    assert_eq!(nameserver_from_conf("search example.com\n"), None);
    assert_eq!(nameserver_from_conf(""), None);
}

#[test]
fn dns_error_messages() {
    let e = DnsError::NoResults { query: "A:EXAMPLE.COM".to_string() };
    assert_eq!(e.message(), "DNS Query Warning: Query: \"A:EXAMPLE.COM\" Warning: No DNS results");
    let e = DnsError::Transport { stage: "Bind Error".to_string(), cause: "in use".to_string() };
    assert_eq!(e.message(), "DNS Bind Error: in use");
    let e = DnsError::Decode { cause: "short".to_string() };
    assert_eq!(e.message(), "DNS Error Getting Message From Slice: short");
    let e = DnsError::Encode { cause: "bad".to_string() };
    assert_eq!(e.message(), "DNS Error Converting Message to Vector: bad");
}
