use homebase::resolve::{Request, RecordType};
use homebase::token::{parse_piece, parse_spec, TokenKind};

#[test]
fn parse_spec_reads_keys_without_regard_to_case() {
    let toks = parse_spec("as:64500 org:arin a:example.com nocolon junk:x AAAA:host.example");
    let kinds: Vec<TokenKind> = toks.iter().map(|t| t.kind).collect();
    assert_eq!(kinds, vec![TokenKind::Asn, TokenKind::Org, TokenKind::HostA, TokenKind::HostAaaa]);
    let values: Vec<&str> = toks.iter().map(|t| t.value.as_str()).collect();
    assert_eq!(values, vec!["64500", "ARIN", "EXAMPLE.COM", "HOST.EXAMPLE"]);
}

#[test]
fn parse_spec_splits_on_any_whitespace() {
    let toks = parse_spec("  IPV4:10.0.0.1\tIPV4:10.0.0.2\n\nIPV4:10.0.0.3  ");
    assert_eq!(toks.len(), 3);
    assert_eq!(toks[2].value, "10.0.0.3");
}

#[test]
fn parse_spec_of_empty_text_has_no_tokens() {
    assert!(parse_spec("").is_empty());
    assert!(parse_spec("   ").is_empty());
}

#[test]
fn ipv6_value_is_lower_cased_and_keeps_its_colons() {
    let t = parse_piece("ipv6:2001:DB8::/32").unwrap();
    assert_eq!(t.kind, TokenKind::LiteralV6);
    assert_eq!(t.value, "2001:db8::/32");
}

#[test]
fn ipv4_value_is_kept_as_written() {
    let t = parse_piece("IpV4:192.0.2.1").unwrap();
    assert_eq!(t.kind, TokenKind::LiteralV4);
    assert_eq!(t.value, "192.0.2.1");
}

#[test]
fn unknown_key_and_missing_colon_give_no_token() {
    assert!(parse_piece("MX:mail.example").is_none());
    assert!(parse_piece("AS64500").is_none());
}

#[test]
fn autnum_value_gets_as_prefix_once() {
    let plain = parse_piece("AS:64500").unwrap();
    match plain.request() {
        Request::Rdap(q) => {
            assert!(q.autnum);
            assert_eq!(q.handle, "AS64500");
            assert_eq!(q.text(), "AS:AS64500");
        }
        _ => panic!("expected a registry lookup"),
    }
    let prefixed = parse_piece("as:as64500").unwrap();
    match prefixed.request() {
        Request::Rdap(q) => assert_eq!(q.text(), "AS:AS64500"),
        _ => panic!("expected a registry lookup"),
    }
}

#[test]
fn org_and_host_tokens_ask_for_lookups() {
    match parse_piece("ORG:ORG-1").unwrap().request() {
        Request::Rdap(q) => {
            assert!(!q.autnum);
            assert_eq!(q.text(), "ORG:ORG-1");
        }
        _ => panic!("expected a registry lookup"),
    }
    match parse_piece("AAAA:example.com").unwrap().request() {
        Request::Dns { name, rtype } => {
            assert_eq!(name, "EXAMPLE.COM");
            assert_eq!(rtype, RecordType::Aaaa);
        }
        _ => panic!("expected a DNS lookup"),
    }
}

#[test]
fn literal_tokens_get_full_length_prefix() {
    let lines: Vec<String> = parse_spec("IPV4:10.0.0.1 IPV4:10.0.0.0/8 IPV6:2001:DB8::1 IPV6:2001:db8::/32")
        .iter()
        .map(|t| match t.request() {
            Request::Line(l) => l,
            _ => panic!("expected a literal"),
        })
        .collect();
    assert_eq!(lines, vec!["10.0.0.1/32", "10.0.0.0/8", "2001:db8::1/128", "2001:db8::/32"]);
}
