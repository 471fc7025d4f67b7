use vstd::prelude::*;
use crate::pipeline::lines_view;
use crate::resolve::RecordType;

verus! {

/// Why a DNS lookup gave nothing.
#[derive(Clone, Debug)]
pub enum DnsError {
    /// The query could not be encoded.
    Encode { cause: String },
    /// The socket failed: bind, timeout setting, connect, send or receive.
    Transport { stage: String, cause: String },
    /// The response could not be decoded.
    Decode { cause: String },
    /// The response held no answer records.
    NoResults { query: String },
}

/// The text of each answer record of a DNS response, as rustdns decodes and prints
/// it; `None` where it refuses the bytes.
pub uninterp spec fn answer_texts_of(b: Seq<u8>) -> Option<Seq<Seq<char>>>;

/// The bytes that rustdns encodes for a one-question query of `name` with type
/// code `rtype`, after the two bytes of the message id; `None` where it refuses
/// the name.
pub uninterp spec fn query_tail_of(name: Seq<char>, rtype: u16) -> Option<Seq<u8>>;

/// The DNS type code of a record type.
pub open spec fn type_code(rtype: RecordType) -> u16 {
    match rtype {
        RecordType::A => 1,
        RecordType::Aaaa => 28,
        RecordType::Txt => 16,
    }
}

/// An EDNS0 OPT record for the root name advertising a 4096-byte UDP payload, with
/// no extended code, version 0, no flags and no options.
pub open spec fn edns_record() -> Seq<u8> {
    seq![0u8, 0, 41, 16, 0, 0, 0, 0, 0, 0, 0]
}

/// A query message: one question, no answer or authority records, one additional
/// record; the question ends with the type code and class IN, and the message ends
/// with the EDNS0 record.
pub open spec fn is_query_message(b: Seq<u8>, code: u16) -> bool {
    &&& b.len() >= 28
    &&& b[4] == 0 && b[5] == 1
    &&& b[6] == 0 && b[7] == 0 && b[8] == 0 && b[9] == 0
    &&& b[10] == 0 && b[11] == 1
    &&& b.subrange(b.len() - 15, b.len() - 11) == seq![(code / 256) as u8, (code % 256) as u8, 0u8, 1u8]
    &&& b.subrange(b.len() - 11, b.len() as int) == edns_record()
}

/// Relies on rustdns's `Message::default`, `Message::try_add_question`,
/// `Message::set_extension` and `Message::to_vec`. Only the first two bytes (the
/// message id) are random; whether the name is accepted and every later byte
/// depend on the name and type alone. `to_vec` writes the header counts (one
/// question, one additional record), the question (name, type, class IN) and the
/// default `Extension` (payload size 4096).
#[verifier::external_body]
fn encode_question(name: &str, rtype: RecordType) -> (r: Result<Vec<u8>, String>)
    ensures
        r is Ok <==> query_tail_of(name@, type_code(rtype)) is Some,
        r matches Ok(b) ==> b@.len() >= 2 && query_tail_of(name@, type_code(rtype)) == Some(
            b@.skip(2),
        ),
        r matches Ok(b) ==> is_query_message(b@, type_code(rtype)),
{
    let t = match rtype {
        RecordType::A => rustdns::Type::A,
        RecordType::Aaaa => rustdns::Type::AAAA,
        RecordType::Txt => rustdns::Type::TXT,
    };
    let mut m = rustdns::Message::default();
    m.try_add_question(name, t, rustdns::Class::Internet).map_err(|e| e.to_string())?;
    m.set_extension(rustdns::Extension::default());
    m.to_vec().map_err(|e| e.to_string())
}

/// Relies on rustdns's `Message::from_slice` and the `Display` of its answer
/// records: both depend on the bytes alone.
#[verifier::external_body]
fn decode_texts(buf: &[u8]) -> (r: Result<Vec<String>, String>)
    ensures
        r is Ok <==> answer_texts_of(buf@) is Some,
        r matches Ok(v) ==> answer_texts_of(buf@) == Some(lines_view(v@)),
{
    rustdns::Message::from_slice(buf)
        .map(|m| m.answers.iter().map(|a| a.resource.to_string()).collect())
        .map_err(|e| e.to_string())
}

/// Encodes a query for `name`: one question of the given type in class IN, with
/// an EDNS0 record advertising a 4096-byte payload. It fails, with `Encode`,
/// exactly where rustdns refuses the name.
pub fn encode_query(name: &str, rtype: RecordType) -> (r: Result<Vec<u8>, DnsError>)
    ensures
        r is Ok <==> query_tail_of(name@, type_code(rtype)) is Some,
        r matches Ok(b) ==> b@.len() >= 2 && query_tail_of(name@, type_code(rtype)) == Some(
            b@.skip(2),
        ),
        r matches Ok(b) ==> is_query_message(b@, type_code(rtype)),
        r matches Err(e) ==> e is Encode,
{
    match encode_question(name, rtype) {
        Ok(b) => Ok(b),
        Err(cause) => Err(DnsError::Encode { cause }),
    }
}

/// Decodes a response into the text of its answer records, in order.
pub fn decode_answers(buf: &[u8]) -> (r: Result<Vec<String>, DnsError>)
    ensures
        r is Ok <==> answer_texts_of(buf@) is Some,
        r matches Ok(v) ==> answer_texts_of(buf@) == Some(lines_view(v@)),
        r matches Err(e) ==> e is Decode,
{
    match decode_texts(buf) {
        Ok(v) => Ok(v),
        Err(cause) => Err(DnsError::Decode { cause }),
    }
}

fn concat(a: &str, b: &str) -> (r: String)
    ensures
        r@ == a@ + b@,
{
    a.to_owned().concat(b)
}

impl DnsError {
    /// The diagnostic line for this error.
    pub fn message(&self) -> (r: String)
        ensures
            self matches DnsError::Encode { cause } ==> r@
                == "DNS Error Converting Message to Vector: "@ + cause@,
            self matches DnsError::Transport { stage, cause } ==> r@ == "DNS "@ + stage@ + ": "@
                + cause@,
            self matches DnsError::Decode { cause } ==> r@ == "DNS Error Getting Message From Slice: "@
                + cause@,
            self matches DnsError::NoResults { query } ==> r@ == "DNS Query Warning: Query: \""@
                + query@ + "\" Warning: No DNS results"@,
    {
        match self {
            DnsError::Encode { cause } => concat("DNS Error Converting Message to Vector: ", cause.as_str()),
            DnsError::Transport { stage, cause } => concat(
                concat(concat("DNS ", stage.as_str()).as_str(), ": ").as_str(),
                cause.as_str(),
            ),
            DnsError::Decode { cause } => concat("DNS Error Getting Message From Slice: ", cause.as_str()),
            DnsError::NoResults { query } => concat(
                concat("DNS Query Warning: Query: \"", query.as_str()).as_str(),
                "\" Warning: No DNS results",
            ),
        }
    }
}

/// The text without its `"` characters.
pub open spec fn unquoted(s: Seq<char>) -> Seq<char>
    decreases s.len(),
{
    if s.len() == 0 {
        s
    } else if s.last() == '"' {
        unquoted(s.drop_last())
    } else {
        unquoted(s.drop_last()).push(s.last())
    }
}

pub fn strip_quotes(s: &str) -> (r: String)
    ensures
        r@ == unquoted(s@),
{
    let n = s.unicode_len();
    let mut out = String::new();
    let mut i: usize = 0;
    while i < n
        invariant
            i <= n,
            n == s@.len(),
            out@ == unquoted(s@.take(i as int)),
        decreases n - i,
    {
        proof {
            assert(s@.take(i as int + 1).drop_last() =~= s@.take(i as int));
        }
        if s.get_char(i) != '"' {
            let c = s.substring_char(i, i + 1);
            assert(c@ =~= seq![s@[i as int]]);
            out.append(c);
            assert(out@ =~= unquoted(s@.take(i as int)).push(s@[i as int]));
        }
        i = i + 1;
    }
    assert(s@.take(n as int) =~= s@);
    out
}

pub open spec fn full_prefix(rtype: RecordType) -> Seq<char> {
    match rtype {
        RecordType::Aaaa => "/128"@,
        _ => "/32"@,
    }
}

pub open spec fn type_key(rtype: RecordType) -> Seq<char> {
    match rtype {
        RecordType::A => "A"@,
        RecordType::Aaaa => "AAAA"@,
        RecordType::Txt => "TXT"@,
    }
}

/// Each answer as a full-length network: quotes dropped, `/32` or `/128` appended.
pub open spec fn address_lines_of(texts: Seq<Seq<char>>, rtype: RecordType) -> Seq<Seq<char>> {
    texts.map_values(|t: Seq<char>| unquoted(t) + full_prefix(rtype))
}

/// The lines that a host lookup gives, or `NoResults` naming the query
/// (`A:<name>`, `AAAA:<name>`) where the response held no answers.
pub fn address_lines(name: &str, rtype: RecordType, texts: &Vec<String>) -> (r: Result<
    Vec<String>,
    DnsError,
>)
    ensures
        texts@.len() == 0 ==> (r matches Err(DnsError::NoResults { query }) && query@ == type_key(
            rtype,
        ) + ":"@ + name@),
        texts@.len() > 0 ==> (r matches Ok(v) && lines_view(v@) == address_lines_of(
            lines_view(texts@),
            rtype,
        )),
{
    if texts.len() == 0 {
        let key = match rtype {
            RecordType::A => "A:",
            RecordType::Aaaa => "AAAA:",
            RecordType::Txt => "TXT:",
        };
        proof {
            reveal_strlit("A:");
            reveal_strlit("A");
            reveal_strlit("AAAA:");
            reveal_strlit("AAAA");
            reveal_strlit("TXT:");
            reveal_strlit("TXT");
            reveal_strlit(":");
        }
        assert(key@ == type_key(rtype) + ":"@);
        return Err(DnsError::NoResults { query: key.to_owned().concat(name) });
    }
    let full = match rtype {
        RecordType::Aaaa => "/128",
        _ => "/32",
    };
    let mut out: Vec<String> = Vec::new();
    let mut i: usize = 0;
    while i < texts.len()
        invariant
            i <= texts.len(),
            full@ == full_prefix(rtype),
            lines_view(out@) == address_lines_of(lines_view(texts@), rtype).take(i as int),
        decreases texts.len() - i,
    {
        let line = strip_quotes(texts[i].as_str()).concat(full);
        let ghost before = lines_view(out@);
        let ghost lv = line@;
        out.push(line);
        proof {
            assert(lines_view(texts@)[i as int] == texts@[i as int]@);
            assert(address_lines_of(lines_view(texts@), rtype)[i as int] == lv);
            assert(lines_view(out@) =~= before.push(lv));
            assert(lines_view(out@) =~= address_lines_of(lines_view(texts@), rtype).take(i as int + 1));
        }
        i = i + 1;
    }
    proof {
        assert(address_lines_of(lines_view(texts@), rtype).take(i as int) =~= address_lines_of(
            lines_view(texts@),
            rtype,
        ));
    }
    Ok(out)
}

/// The homebase specification published in TXT answers: the first answer without
/// its quotes, or `None` where there is none.
pub fn spec_from_txt(texts: &Vec<String>) -> (r: Option<String>)
    ensures
        texts@.len() == 0 ==> r is None,
        texts@.len() > 0 ==> (r matches Some(s) && s@ == unquoted(texts@[0]@)),
{
    if texts.len() == 0 {
        None
    } else {
        Some(strip_quotes(texts[0].as_str()))
    }
}

/// The pieces between `\n` characters, empty ones included.
pub open spec fn split_lines(s: Seq<char>) -> Seq<Seq<char>>
    decreases s.len(),
{
    if s.len() == 0 {
        seq![Seq::empty()]
    } else {
        let p = split_lines(s.drop_last());
        if s.last() == '\n' {
            p.push(Seq::empty())
        } else {
            p.update(p.len() - 1, p.last().push(s.last()))
        }
    }
}

/// Index of the first space, or the length.
pub open spec fn field_end(l: Seq<char>) -> int
    decreases l.len(),
{
    if l.len() == 0 {
        0
    } else if l[0] == ' ' {
        0
    } else {
        field_end(l.drop_first()) + 1
    }
}

/// A line without the carriage return that may end it.
pub open spec fn line_body(l: Seq<char>) -> Seq<char> {
    if l.len() > 0 && l.last() == '\r' {
        l.drop_last()
    } else {
        l
    }
}

/// The address a resolver configuration line names: the field after a leading
/// `nameserver `, up to the next space (so comment lines, starting with `#`, and
/// empty lines name none).
pub open spec fn line_nameserver(l: Seq<char>) -> Option<Seq<char>> {
    let b = line_body(l);
    if b.len() >= 11 && b.take(11) == "nameserver "@ {
        let rest = b.subrange(11, b.len() as int);
        Some(rest.take(field_end(rest)))
    } else {
        None
    }
}

/// The address of the first line that names one.
pub open spec fn first_nameserver(ls: Seq<Seq<char>>) -> Option<Seq<char>>
    decreases ls.len(),
{
    if ls.len() == 0 {
        None
    } else {
        match first_nameserver(ls.drop_last()) {
            Some(a) => Some(a),
            None => line_nameserver(ls.last()),
        }
    }
}

proof fn lemma_field_end(l: Seq<char>, k: int)
    requires
        0 <= k <= l.len(),
        forall|j: int| 0 <= j < k ==> l[j] != ' ',
        k < l.len() ==> l[k] == ' ',
    ensures
        field_end(l) == k,
    decreases l.len(),
{
    if l.len() > 0 && k > 0 {
        lemma_field_end(l.drop_first(), k - 1);
    }
}

fn nameserver_of_line(l: &str) -> (r: Option<String>)
    ensures
        r is Some <==> line_nameserver(l@) is Some,
        r matches Some(a) ==> line_nameserver(l@) == Some(a@),
{
    let len = l.unicode_len();
    let n = if len > 0 && l.get_char(len - 1) == '\r' {
        len - 1
    } else {
        len
    };
    let body = l.substring_char(0, n);
    assert(body@ =~= line_body(l@));
    if n < 11 || !crate::token::same_text(body.substring_char(0, 11), "nameserver ") {
        return None;
    }
    let rest = body.substring_char(11, n);
    let m = rest.unicode_len();
    let mut k: usize = 0;
    while k < m && rest.get_char(k) != ' '
        invariant
            k <= m,
            m == rest@.len(),
            forall|j: int| 0 <= j < k ==> rest@[j] != ' ',
        decreases m - k,
    {
        k = k + 1;
    }
    proof {
        lemma_field_end(rest@, k as int);
    }
    let a = rest.substring_char(0, k);
    Some(a.to_owned())
}

/// The name server that a resolver configuration names: the address on its first
/// `nameserver <addr>` line; `None` where no line names one.
pub fn nameserver_from_conf(conf: &str) -> (r: Option<String>)
    ensures
        r is Some <==> first_nameserver(split_lines(conf@)) is Some,
        r matches Some(a) ==> first_nameserver(split_lines(conf@)) == Some(a@),
{
    let n = conf.unicode_len();
    let mut found: Option<String> = None;
    let mut start: usize = 0;
    let mut i: usize = 0;
    let ghost mut done: Seq<Seq<char>> = Seq::empty();
    proof {
        assert(conf@.take(0) =~= Seq::<char>::empty());
        assert(conf@.subrange(0, 0) =~= Seq::<char>::empty());
        assert(split_lines(conf@.take(0)) =~= done.push(conf@.subrange(0, 0)));
    }
    while i < n
        invariant
            start <= i <= n,
            n == conf@.len(),
            split_lines(conf@.take(i as int)) == done.push(conf@.subrange(start as int, i as int)),
            found is Some <==> first_nameserver(done) is Some,
            found matches Some(a) ==> first_nameserver(done) == Some(a@),
        decreases n - i,
    {
        let ch = conf.get_char(i);
        assert(conf@.take(i as int + 1).drop_last() =~= conf@.take(i as int));
        assert(conf@.take(i as int + 1).last() == ch);
        if ch == '\n' {
            let line = conf.substring_char(start, i);
            if found.is_none() {
                found = nameserver_of_line(line);
            }
            proof {
                let d2 = done.push(line@);
                assert(d2.drop_last() =~= done);
                done = d2;
                assert(conf@.subrange(i as int + 1, i as int + 1) =~= Seq::<char>::empty());
            }
            start = i + 1;
        } else {
            proof {
                let p = done.push(conf@.subrange(start as int, i as int));
                assert(conf@.subrange(start as int, i as int).push(ch) =~= conf@.subrange(start as int, i as int + 1));
                assert(p.update(p.len() - 1, p.last().push(ch)) =~= done.push(
                    conf@.subrange(start as int, i as int + 1),
                ));
            }
        }
        i = i + 1;
    }
    let line = conf.substring_char(start, n);
    if found.is_none() {
        found = nameserver_of_line(line);
    }
    proof {
        assert(conf@.take(n as int) =~= conf@);
        let d2 = done.push(line@);
        assert(d2.drop_last() =~= done);
    }
    found
}

} // verus!
