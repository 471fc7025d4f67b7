use vstd::prelude::*;
use std::str::FromStr;

verus! {

/// A network prefix: an address and a prefix length, IPv4 or IPv6.
#[allow(inconsistent_fields)]
#[derive(Clone, Copy, Debug, PartialEq, Eq, Hash)]
pub enum Cidr {
    V4 { addr: u32, prefix: u8 },
    V6 { addr: u128, prefix: u8 },
}

/// What a CIDR text parses to, as ipnetwork reads it (`None` where it refuses the text).
pub uninterp spec fn cidr_of(s: Seq<char>) -> Option<Cidr>;

/// Relies on `ipnetwork::IpNetwork::from_str`: it depends on the text alone, and the
/// prefix it accepts is at most the width of the address.
#[verifier::external_body]
fn parse_network(s: &str) -> (r: Option<Cidr>)
    ensures
        r == cidr_of(s@),
        r matches Some(Cidr::V4 { prefix, .. }) ==> prefix <= 32,
        r matches Some(Cidr::V6 { prefix, .. }) ==> prefix <= 128,
{
    match ipnetwork::IpNetwork::from_str(s) {
        Ok(ipnetwork::IpNetwork::V4(n)) => Some(Cidr::V4 { addr: u32::from(n.ip()), prefix: n.prefix() }),
        Ok(ipnetwork::IpNetwork::V6(n)) => Some(Cidr::V6 { addr: u128::from(n.ip()), prefix: n.prefix() }),
        Err(_) => None,
    }
}

impl Cidr {
    /// The address family: 4 or 6.
    pub open spec fn family(self) -> int {
        match self {
            Cidr::V4 { .. } => 4,
            Cidr::V6 { .. } => 6,
        }
    }

    pub open spec fn address(self) -> int {
        match self {
            Cidr::V4 { addr, .. } => addr as int,
            Cidr::V6 { addr, .. } => addr as int,
        }
    }

    pub open spec fn prefix_len(self) -> int {
        match self {
            Cidr::V4 { prefix, .. } => prefix as int,
            Cidr::V6 { prefix, .. } => prefix as int,
        }
    }

    /// Natural network order: every IPv4 network before every IPv6 one, then by
    /// numeric address, then by prefix length.
    pub open spec fn le(self, o: Cidr) -> bool {
        self.family() < o.family() || (self.family() == o.family() && (self.address()
            < o.address() || (self.address() == o.address() && self.prefix_len()
            <= o.prefix_len())))
    }

    /// Reads a CIDR text; an address without a prefix is a full-length prefix.
    pub fn parse(s: &str) -> (r: Option<Cidr>)
        ensures
            r == cidr_of(s@),
    {
        parse_network(s)
    }

    pub fn is_v4(&self) -> (r: bool)
        ensures
            r == (self.family() == 4),
    {
        matches!(self, Cidr::V4 { .. })
    }

    /// `self.le(o)`, computed.
    pub fn precedes(&self, o: &Cidr) -> (r: bool)
        ensures
            r == self.le(*o),
    {
        match (self, o) {
            (Cidr::V4 { .. }, Cidr::V6 { .. }) => true,
            (Cidr::V6 { .. }, Cidr::V4 { .. }) => false,
            (Cidr::V4 { addr: a, prefix: p }, Cidr::V4 { addr: b, prefix: q }) => *a < *b || (*a
                == *b && *p <= *q),
            (Cidr::V6 { addr: a, prefix: p }, Cidr::V6 { addr: b, prefix: q }) => *a < *b || (*a
                == *b && *p <= *q),
        }
    }
}

pub open spec fn sorted(s: Seq<Cidr>) -> bool {
    forall|i: int, j: int| 0 <= i < j < s.len() ==> s[i].le(s[j])
}

proof fn lemma_insert_multiset(s: Seq<Cidr>, pos: int, x: Cidr)
    requires
        0 <= pos <= s.len(),
    ensures
        s.insert(pos, x).to_multiset() =~= s.to_multiset().insert(x),
{
    broadcast use vstd::seq_lib::group_to_multiset_ensures;

    let t = s.insert(pos, x);
    s.insert_ensures(pos, x);
    assert(t.remove(pos) =~= s);
    assert(t.contains(x)) by {
        assert(t[pos] == x);
    }
    assert(t.to_multiset().count(x) > 0);
    assert(t.to_multiset().remove(x) =~= s.to_multiset());
    assert(t.to_multiset() =~= t.to_multiset().remove(x).insert(x));
}

/// Sorts networks into natural order; the result holds the same networks.
pub fn sort_cidrs(v: Vec<Cidr>) -> (r: Vec<Cidr>)
    ensures
        sorted(r@),
        r@.to_multiset() == v@.to_multiset(),
{
    broadcast use vstd::seq_lib::group_to_multiset_ensures;

    let mut out: Vec<Cidr> = Vec::new();
    let mut i: usize = 0;
    while i < v.len()
        invariant
            i <= v.len(),
            sorted(out@),
            out@.to_multiset() == v@.take(i as int).to_multiset(),
        decreases v.len() - i,
    {
        let x = v[i];
        let mut pos: usize = 0;
        while pos < out.len() && out[pos].precedes(&x)
            invariant
                pos <= out.len(),
                forall|k: int| 0 <= k < pos ==> (#[trigger] out@[k]).le(x),
            decreases out.len() - pos,
        {
            pos = pos + 1;
        }
        let ghost old_out = out@;
        out.insert(pos, x);
        proof {
            lemma_insert_multiset(old_out, pos as int, x);
            assert(v@.take(i as int + 1) =~= v@.take(i as int).push(x));
            v@.take(i as int).to_multiset_ensures();
            assert(v@.take(i as int).push(x).to_multiset() =~= v@.take(i as int).to_multiset().insert(x));
            old_out.insert_ensures(pos as int, x);
            assert forall|a: int, b: int| 0 <= a < b < out@.len() implies out@[a].le(out@[b]) by {
                if b < pos {
                } else if b == pos {
                } else if a < pos {
                    assert(old_out[b - 1] == out@[b]);
                    if pos < old_out.len() {
                        assert(!old_out[pos as int].le(x));
                        assert(old_out[pos as int].le(old_out[b - 1]) || pos as int == b - 1);
                    }
                } else if a == pos {
                    assert(old_out[b - 1] == out@[b]);
                    assert(!old_out[pos as int].le(x));
                    assert(old_out[pos as int].le(old_out[b - 1]) || pos as int == b - 1);
                } else {
                    assert(old_out[a - 1] == out@[a]);
                    assert(old_out[b - 1] == out@[b]);
                }
            }
        }
        i = i + 1;
    }
    assert(v@.take(v.len() as int) =~= v@);
    out
}

} // verus!
