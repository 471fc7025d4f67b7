use vstd::prelude::*;
use crate::pipeline::{has_char, lines_view};
use crate::token::{Token, TokenKind, lower_of, to_lower};

verus! {

/// DNS record types that resolution asks for.
#[derive(Clone, Copy, Debug, PartialEq, Eq)]
pub enum RecordType {
    A,
    Aaaa,
    Txt,
}

/// A registry lookup: an autonomous system (`AS:<handle>`) or an organization
/// (`ORG:<handle>`).
#[derive(Clone, Debug)]
pub struct RdapQuery {
    pub autnum: bool,
    pub handle: String,
}

/// What resolving one token takes.
#[derive(Clone, Debug)]
pub enum Request {
    /// A registry lookup.
    Rdap(RdapQuery),
    /// A DNS lookup of a host name.
    Dns { name: String, rtype: RecordType },
    /// Nothing to look up: the line is the token's whole output.
    Line(String),
}

/// One network of an organization record, as the registry lists it.
#[derive(Clone, Debug)]
pub struct NetworkEntry {
    pub v6prefix: Option<String>,
    pub v4prefix: Option<String>,
    pub length: String,
}

/// Why a registry lookup contributed nothing.
#[derive(Clone, Debug)]
pub enum RdapError {
    /// The lookup worked but listed no networks.
    NoCidrs { query: String },
    /// An autonomous system record named no organization.
    NoOrganization { query: String },
    /// The lookup itself failed.
    Failed { query: String, cause: String },
}

pub open spec fn has_as(v: Seq<char>) -> bool {
    exists|i: int| 0 <= i < v.len() - 1 && #[trigger] v[i] == 'A' && v[i + 1] == 'S'
}

/// The registry handle for an AS value: kept where it already holds `AS`, else
/// prefixed with `AS`.
pub open spec fn autnum_handle(v: Seq<char>) -> Seq<char> {
    if has_as(v) {
        v
    } else {
        "AS"@ + v
    }
}

/// A literal network: kept where it has a prefix, else given the full-length one.
pub open spec fn literal_line(v: Seq<char>, full: Seq<char>) -> Seq<char> {
    if v.contains('/') {
        v
    } else {
        v + full
    }
}

pub open spec fn query_text(autnum: bool, handle: Seq<char>) -> Seq<char> {
    if autnum {
        "AS:"@ + handle
    } else {
        "ORG:"@ + handle
    }
}

/// The line a network entry gives: the IPv6 prefix lower-cased where there is one,
/// else the IPv4 prefix, then `/` and the length.
pub open spec fn entry_line(e: NetworkEntry) -> Option<Seq<char>> {
    match e.v6prefix {
        Some(p) => Some(lower_of(p@) + "/"@ + e.length@),
        None => match e.v4prefix {
            Some(p) => Some(p@ + "/"@ + e.length@),
            None => None,
        },
    }
}

pub open spec fn entry_lines(es: Seq<NetworkEntry>) -> Seq<Seq<char>>
    decreases es.len(),
{
    if es.len() == 0 {
        Seq::empty()
    } else {
        match entry_line(es.last()) {
            Some(l) => entry_lines(es.drop_last()).push(l),
            None => entry_lines(es.drop_last()),
        }
    }
}

fn concat(a: &str, b: &str) -> (r: String)
    ensures
        r@ == a@ + b@,
{
    a.to_owned().concat(b)
}

/// Whether the text holds `AS`.
pub fn contains_as(v: &str) -> (r: bool)
    ensures
        r == has_as(v@),
{
    let n = v.unicode_len();
    let mut i: usize = 0;
    while n > 0 && i < n - 1
        invariant
            i <= n,
            n == v@.len(),
            forall|k: int| 0 <= k < i && k < n - 1 ==> !(#[trigger] v@[k] == 'A' && v@[k + 1] == 'S'),
        decreases n - i,
    {
        if v.get_char(i) == 'A' && v.get_char(i + 1) == 'S' {
            return true;
        }
        i = i + 1;
    }
    false
}

pub fn literal(v: &str, full: &str) -> (r: String)
    ensures
        r@ == literal_line(v@, full@),
{
    if has_char(v, '/') {
        v.to_owned()
    } else {
        concat(v, full)
    }
}

impl RdapQuery {
    /// The query as it is reported: `AS:<handle>` or `ORG:<handle>`.
    pub fn text(&self) -> (r: String)
        ensures
            r@ == query_text(self.autnum, self.handle@),
    {
        if self.autnum {
            concat("AS:", self.handle.as_str())
        } else {
            concat("ORG:", self.handle.as_str())
        }
    }

    /// The organization lookup that an autonomous system's record leads to, by the
    /// handle of its first entity.
    pub fn organization(entity: Option<String>, autnum: &RdapQuery) -> (r: Result<RdapQuery, RdapError>)
        ensures
            entity is Some ==> (r matches Ok(q) && !q.autnum && q.handle@ == entity->Some_0@),
            entity is None ==> (r matches Err(RdapError::NoOrganization { query }) && query@
                == query_text(autnum.autnum, autnum.handle@)),
    {
        match entity {
            Some(h) => Ok(RdapQuery { autnum: false, handle: h }),
            None => Err(RdapError::NoOrganization { query: autnum.text() }),
        }
    }
}

impl Token {
    /// What resolving this token takes.
    pub fn request(&self) -> (r: Request)
        ensures
            self.kind == TokenKind::Org ==> (r matches Request::Rdap(q) && !q.autnum && q.handle@
                == self.value@),
            self.kind == TokenKind::Asn ==> (r matches Request::Rdap(q) && q.autnum && q.handle@
                == autnum_handle(self.value@)),
            self.kind == TokenKind::HostA ==> (r matches Request::Dns { name, rtype } && name@
                == self.value@ && rtype == RecordType::A),
            self.kind == TokenKind::HostAaaa ==> (r matches Request::Dns { name, rtype } && name@
                == self.value@ && rtype == RecordType::Aaaa),
            self.kind == TokenKind::LiteralV4 ==> (r matches Request::Line(l) && l@ == literal_line(
                self.value@,
                "/32"@,
            )),
            self.kind == TokenKind::LiteralV6 ==> (r matches Request::Line(l) && l@ == literal_line(
                self.value@,
                "/128"@,
            )),
    {
        let v = self.value.as_str();
        match self.kind {
            TokenKind::Org => Request::Rdap(RdapQuery { autnum: false, handle: v.to_owned() }),
            TokenKind::Asn => {
                let handle = if contains_as(v) {
                    v.to_owned()
                } else {
                    concat("AS", v)
                };
                Request::Rdap(RdapQuery { autnum: true, handle })
            },
            TokenKind::HostA => Request::Dns { name: v.to_owned(), rtype: RecordType::A },
            TokenKind::HostAaaa => Request::Dns { name: v.to_owned(), rtype: RecordType::Aaaa },
            TokenKind::LiteralV4 => Request::Line(literal(v, "/32")),
            TokenKind::LiteralV6 => Request::Line(literal(v, "/128")),
        }
    }
}

/// The lines that an organization's networks give, in order; an entry with neither
/// prefix gives none.
pub fn network_lines(nets: &Vec<NetworkEntry>) -> (r: Vec<String>)
    ensures
        lines_view(r@) == entry_lines(nets@),
{
    let mut out: Vec<String> = Vec::new();
    let mut i: usize = 0;
    while i < nets.len()
        invariant
            i <= nets.len(),
            lines_view(out@) == entry_lines(nets@.take(i as int)),
        decreases nets.len() - i,
    {
        let e = &nets[i];
        proof {
            assert(nets@.take(i as int + 1).drop_last() =~= nets@.take(i as int));
            assert(nets@.take(i as int + 1).last() == *e);
        }
        let line = match &e.v6prefix {
            Some(p) => Some(concat(concat(to_lower(p.as_str()).as_str(), "/").as_str(), e.length.as_str())),
            None => match &e.v4prefix {
                Some(p) => Some(concat(concat(p.as_str(), "/").as_str(), e.length.as_str())),
                None => None,
            },
        };
        match line {
            Some(l) => {
                out.push(l);
                proof {
                    assert(lines_view(out@) =~= lines_view(out@).drop_last().push(out@.last()@));
                }
            },
            None => {},
        }
        i = i + 1;
    }
    assert(nets@.take(nets.len() as int) =~= nets@);
    out
}

/// The outcome of an organization lookup: its networks' lines, or `NoCidrs` naming
/// the query where there are none.
pub fn organization_outcome(q: &RdapQuery, nets: &Vec<NetworkEntry>) -> (r: Result<Vec<String>, RdapError>)
    ensures
        entry_lines(nets@).len() > 0 ==> (r matches Ok(v) && lines_view(v@) == entry_lines(nets@)),
        entry_lines(nets@).len() == 0 ==> (r matches Err(RdapError::NoCidrs { query }) && query@
            == query_text(q.autnum, q.handle@)),
{
    let lines = network_lines(nets);
    if lines.len() == 0 {
        Err(RdapError::NoCidrs { query: q.text() })
    } else {
        Ok(lines)
    }
}

/// The outcome of an autonomous system lookup from that of the organization it led
/// to: a `NoCidrs` is reported again under the autonomous system's own query; lines
/// and other errors pass through.
pub fn autnum_outcome(q: &RdapQuery, org: Result<Vec<String>, RdapError>) -> (r: Result<
    Vec<String>,
    RdapError,
>)
    ensures
        org matches Err(RdapError::NoCidrs { .. }) ==> (r matches Err(RdapError::NoCidrs { query })
            && query@ == query_text(q.autnum, q.handle@)),
        org matches Ok(v) ==> (r matches Ok(w) && w@ == v@),
        org matches Err(RdapError::NoOrganization { query: a }) ==> (r matches Err(
            RdapError::NoOrganization { query: b },
        ) && a@ == b@),
        org matches Err(RdapError::Failed { query: a, cause: c }) ==> (r matches Err(
            RdapError::Failed { query: b, cause: d },
        ) && a@ == b@ && c@ == d@),
{
    match org {
        Err(RdapError::NoCidrs { .. }) => Err(RdapError::NoCidrs { query: q.text() }),
        other => other,
    }
}

impl RdapError {
    /// The diagnostic line for this error.
    pub fn message(&self) -> (r: String)
        ensures
            self matches RdapError::NoCidrs { query } ==> r@ == "RDAP Query Warning: Query: \""@
                + query@ + "\": No CIDRs returned"@,
            self matches RdapError::NoOrganization { query } ==> r@
                == "RDAP Query Error: Query: \""@ + query@ + "\": No organization entity"@,
            self matches RdapError::Failed { query, cause } ==> r@ == "RDAP Query Error: Query: \""@
                + query@ + "\": "@ + cause@,
    {
        match self {
            RdapError::NoCidrs { query } => concat(
                concat("RDAP Query Warning: Query: \"", query.as_str()).as_str(),
                "\": No CIDRs returned",
            ),
            RdapError::NoOrganization { query } => concat(
                concat("RDAP Query Error: Query: \"", query.as_str()).as_str(),
                "\": No organization entity",
            ),
            RdapError::Failed { query, cause } => concat(
                concat(concat("RDAP Query Error: Query: \"", query.as_str()).as_str(), "\": ").as_str(),
                cause.as_str(),
            ),
        }
    }
}

/// Adds one token's outcome to the lines gathered so far: all of its lines where it
/// resolved, none where it failed; a failure is handed back to be reported, and the
/// tokens after it are still resolved.
pub fn gather<E>(raw: &mut Vec<String>, outcome: Result<Vec<String>, E>) -> (r: Option<E>)
    ensures
        outcome matches Ok(v) ==> final(raw)@ == old(raw)@ + v@ && r is None,
        outcome matches Err(e) ==> final(raw)@ == old(raw)@ && r == Some(e),
{
    match outcome {
        Ok(mut v) => {
            raw.append(&mut v);
            None
        },
        Err(e) => Some(e),
    }
}

} // verus!
