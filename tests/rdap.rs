use homebase::pipeline::{build, FamilyFilter};
use homebase::cidr::Cidr;
use homebase::resolve::{autnum_outcome, gather, network_lines, organization_outcome, NetworkEntry, RdapError, RdapQuery, Request};
use homebase::token::parse_piece;

fn autnum_query(piece: &str) -> RdapQuery {
    match parse_piece(piece).unwrap().request() {
        Request::Rdap(q) => q,
        _ => panic!("expected a registry lookup"),
    }
}

fn v6_net(prefix: &str, len: &str) -> NetworkEntry {
    NetworkEntry { v6prefix: Some(prefix.to_string()), v4prefix: None, length: len.to_string() }
}

#[test]
fn autnum_chases_organization_to_its_network() {
    let q = autnum_query("AS:64500");
    let org = RdapQuery::organization(Some("ORG-1".to_string()), &q).unwrap();
    assert_eq!(org.text(), "ORG:ORG-1");
    let nets = vec![v6_net("2001:DB8::", "32")];
    let out = autnum_outcome(&q, organization_outcome(&org, &nets)).unwrap();
    assert_eq!(out, vec!["2001:db8::/32".to_string()]);
    let cidrs = build(&out, FamilyFilter::Any, false).unwrap();
    assert_eq!(cidrs, vec![Cidr::V6 { addr: 0x2001_0db8 << 96, prefix: 32 }]);
}

#[test]
fn empty_organization_is_reported_under_the_autnum_query() {
    let q = autnum_query("AS:64500");
    let org = RdapQuery::organization(Some("ORG-1".to_string()), &q).unwrap();
    let inner = organization_outcome(&org, &vec![]);
    match &inner {
        Err(RdapError::NoCidrs { query }) => assert_eq!(query, "ORG:ORG-1"),
        other => panic!("unexpected {:?}", other),
    }
    let outer = autnum_outcome(&q, inner);
    match &outer {
        Err(e) => {
            let m = e.message();
            assert_eq!(m, "RDAP Query Warning: Query: \"AS:AS64500\": No CIDRs returned");
            assert!(!m.contains("ORG-1"));
        }
        Ok(_) => panic!("expected a warning"),
    }
    // the other tokens of the specification still resolve
    let mut raw: Vec<String> = vec![];
    assert!(gather(&mut raw, outer).is_some());
    assert!(raw.is_empty());
    assert!(gather::<RdapError>(&mut raw, Ok(vec!["10.0.0.0/8".to_string()])).is_none());
    let cidrs = build(&raw, FamilyFilter::Any, false).unwrap();
    assert_eq!(cidrs, vec![Cidr::V4 { addr: 0x0a00_0000, prefix: 8 }]);
}

#[test]
fn network_prefers_ipv6_then_ipv4_and_skips_neither() {
    let nets = vec![
        NetworkEntry { v6prefix: Some("2001:DB8::".to_string()), v4prefix: Some("192.0.2.0".to_string()), length: "48".to_string() },
        NetworkEntry { v6prefix: None, v4prefix: Some("192.0.2.0".to_string()), length: "24".to_string() },
        NetworkEntry { v6prefix: None, v4prefix: None, length: "8".to_string() },
    ];
    assert_eq!(network_lines(&nets), vec!["2001:db8::/48".to_string(), "192.0.2.0/24".to_string()]);
}

#[test]
fn other_errors_pass_through_autnum() {
    let q = autnum_query("AS:AS64500");
    let e = RdapError::Failed { query: "ORG:ORG-1".to_string(), cause: "timeout".to_string() };
    match autnum_outcome(&q, Err(e)) {
        Err(RdapError::Failed { query, cause }) => {
            assert_eq!(query, "ORG:ORG-1");
            assert_eq!(cause, "timeout");
        }
        other => panic!("unexpected {:?}", other),
    }
}

#[test]
fn missing_organization_names_the_autnum_query() {
    let q = autnum_query("AS:64500");
    match RdapQuery::organization(None, &q) {
        Err(e) => assert_eq!(e.message(), "RDAP Query Error: Query: \"AS:AS64500\": No organization entity"),
        Ok(_) => panic!("expected an error"),
    }
}
