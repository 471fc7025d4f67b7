use homebase::cidr::{sort_cidrs, Cidr};
use homebase::pipeline::{build, family_filter, BuildError, FamilyFilter};
use homebase::resolve::Request;
use homebase::token::parse_spec;

fn lines(v: &[&str]) -> Vec<String> {
    v.iter().map(|s| s.to_string()).collect()
}

fn v4(a: [u8; 4], prefix: u8) -> Cidr {
    Cidr::V4 { addr: u32::from_be_bytes(a), prefix }
}

#[test]
fn literal_only_spec_resolves_to_normalized_distinct_networks() {
    let raw: Vec<String> = parse_spec("IPV4:10.0.0.1 IPV6:2001:DB8::1 IPV4:10.0.0.0/8 IPV4:10.0.0.1")
        .iter()
        .map(|t| match t.request() {
            Request::Line(l) => l,
            _ => panic!("expected a literal"),
        })
        .collect();
    let out = build(&raw, FamilyFilter::Any, false).unwrap();
    assert_eq!(
        out,
        vec![
            v4([10, 0, 0, 1], 32),
            Cidr::V6 { addr: 0x2001_0db8_0000_0000_0000_0000_0000_0001, prefix: 128 },
            v4([10, 0, 0, 0], 8),
        ]
    );
}

#[test]
fn v4_filter_keeps_only_ipv4() {
    let out = build(&lines(&["10.0.0.0/8", "2001:db8::/32"]), FamilyFilter::V4Only, false).unwrap();
    assert_eq!(out, vec![v4([10, 0, 0, 0], 8)]);
}

#[test]
fn v6_filter_keeps_only_ipv6() {
    let out = build(&lines(&["10.0.0.0/8", "2001:db8::/32"]), FamilyFilter::V6Only, false).unwrap();
    assert_eq!(out, vec![Cidr::V6 { addr: 0x2001_0db8 << 96, prefix: 32 }]);
}

#[test]
fn both_family_flags_keep_everything() {
    assert_eq!(family_filter(true, true), FamilyFilter::Any);
    assert_eq!(family_filter(false, false), FamilyFilter::Any);
    assert_eq!(family_filter(true, false), FamilyFilter::V4Only);
    assert_eq!(family_filter(false, true), FamilyFilter::V6Only);
}

#[test]
fn sort_orders_numerically_and_ipv4_first() {
    let raw = lines(&["2001:db8::/32", "192.168.0.0/16", "10.0.0.0/8", "9.0.0.0/8"]);
    let out = build(&raw, FamilyFilter::Any, true).unwrap();
    assert_eq!(
        out,
        vec![
            v4([9, 0, 0, 0], 8),
            v4([10, 0, 0, 0], 8),
            v4([192, 168, 0, 0], 16),
            Cidr::V6 { addr: 0x2001_0db8 << 96, prefix: 32 },
        ]
    );
}

#[test]
fn sort_keeps_every_network() {
    let v = vec![v4([10, 0, 0, 0], 16), v4([10, 0, 0, 0], 8), v4([10, 0, 0, 0], 8)];
    assert_eq!(sort_cidrs(v), vec![v4([10, 0, 0, 0], 8), v4([10, 0, 0, 0], 8), v4([10, 0, 0, 0], 16)]);
}

#[test]
fn duplicates_count_once_in_first_seen_order() {
    let raw = lines(&["192.168.0.0/16", "10.0.0.0/8", "192.168.0.0/16", "", "10.0.0.0/8"]);
    let out = build(&raw, FamilyFilter::Any, false).unwrap();
    assert_eq!(out, vec![v4([192, 168, 0, 0], 16), v4([10, 0, 0, 0], 8)]);
}

#[test]
fn malformed_line_stops_the_run() {
    let raw = lines(&["10.0.0.0/8", "not-a-network", "2001:db8::/32"]);
    match build(&raw, FamilyFilter::Any, false) {
        Err(BuildError::Malformed { line }) => assert_eq!(line, "not-a-network"),
        other => panic!("unexpected {:?}", other),
    }
}

#[test]
fn malformed_line_wins_over_empty_filter_result() {
    let raw = lines(&["2001:db8::/32", "10.0.0.0/40"]);
    assert!(matches!(build(&raw, FamilyFilter::V4Only, false), Err(BuildError::Malformed { .. })));
}

#[test]
fn empty_result_is_no_cidrs() {
    assert_eq!(build(&lines(&[]), FamilyFilter::Any, false), Err(BuildError::NoCidrs));
    assert_eq!(build(&lines(&["", ""]), FamilyFilter::Any, true), Err(BuildError::NoCidrs));
    assert_eq!(build(&lines(&["2001:db8::/32"]), FamilyFilter::V4Only, false), Err(BuildError::NoCidrs));
}

#[test]
fn parse_gives_full_length_prefix_without_one() {
    assert_eq!(Cidr::parse("10.0.0.1"), Some(v4([10, 0, 0, 1], 32)));
    assert_eq!(Cidr::parse("::1"), Some(Cidr::V6 { addr: 1, prefix: 128 }));
    assert_eq!(Cidr::parse("10.0.0.0/33"), None);
    assert!(v4([1, 2, 3, 4], 32).is_v4());
    assert!(v4([1, 2, 3, 4], 8).precedes(&v4([1, 2, 3, 4], 9)));
}
