use vstd::prelude::*;

verus! {

/// What `str::to_uppercase` makes of a text.
pub uninterp spec fn upper_of(s: Seq<char>) -> Seq<char>;

/// What `str::to_lowercase` makes of a text.
pub uninterp spec fn lower_of(s: Seq<char>) -> Seq<char>;

/// Relies on `str::to_uppercase`: the result depends on the text alone.
#[verifier::external_body]
pub(crate) fn to_upper(s: &str) -> (r: String)
    ensures
        r@ == upper_of(s@),
{
    s.to_uppercase()
}

/// Relies on `str::to_lowercase`: the result depends on the text alone.
#[verifier::external_body]
pub(crate) fn to_lower(s: &str) -> (r: String)
    ensures
        r@ == lower_of(s@),
{
    s.to_lowercase()
}

/// The kind of a homebase token, from its key.
#[derive(Clone, Copy, Debug, PartialEq, Eq)]
pub enum TokenKind {
    Asn,
    Org,
    HostA,
    HostAaaa,
    LiteralV4,
    LiteralV6,
}

/// One typed instruction of a homebase specification.
#[derive(Clone, Debug)]
pub struct Token {
    pub kind: TokenKind,
    pub value: String,
}

/// ASCII whitespace, as `char::is_ascii_whitespace` has it.
pub open spec fn is_space(c: char) -> bool {
    c == ' ' || c == '\t' || c == '\n' || c == '\x0C' || c == '\r'
}

/// The pieces between whitespace characters, empty ones included.
pub open spec fn split_ws(s: Seq<char>) -> Seq<Seq<char>>
    decreases s.len(),
{
    if s.len() == 0 {
        seq![Seq::empty()]
    } else {
        let p = split_ws(s.drop_last());
        if is_space(s.last()) {
            p.push(Seq::empty())
        } else {
            p.update(p.len() - 1, p.last().push(s.last()))
        }
    }
}

/// Index of the first `:`, or -1.
pub open spec fn find_colon(p: Seq<char>) -> int
    decreases p.len(),
{
    if p.len() == 0 {
        -1
    } else if p[0] == ':' {
        0
    } else {
        let r = find_colon(p.drop_first());
        if r < 0 {
            r
        } else {
            r + 1
        }
    }
}

/// The kind that a key names, compared without regard to case.
pub open spec fn kind_of(key: Seq<char>) -> Option<TokenKind> {
    let k = upper_of(key);
    if k == "ORG"@ {
        Some(TokenKind::Org)
    } else if k == "AS"@ {
        Some(TokenKind::Asn)
    } else if k == "A"@ {
        Some(TokenKind::HostA)
    } else if k == "AAAA"@ {
        Some(TokenKind::HostAaaa)
    } else if k == "IPV4"@ {
        Some(TokenKind::LiteralV4)
    } else if k == "IPV6"@ {
        Some(TokenKind::LiteralV6)
    } else {
        None
    }
}

/// The payload a token carries: IPv4 literals as written, IPv6 literals lower-cased,
/// everything else upper-cased.
pub open spec fn value_of(k: TokenKind, v: Seq<char>) -> Seq<char> {
    match k {
        TokenKind::LiteralV4 => v,
        TokenKind::LiteralV6 => lower_of(v),
        _ => upper_of(v),
    }
}

/// The token a piece stands for: key before the first `:`, value after it.
pub open spec fn token_of(p: Seq<char>) -> Option<(TokenKind, Seq<char>)> {
    let c = find_colon(p);
    if c < 0 {
        None
    } else {
        match kind_of(p.take(c)) {
            None => None,
            Some(k) => Some((k, value_of(k, p.subrange(c + 1, p.len() as int)))),
        }
    }
}

/// The tokens of a sequence of pieces, in order; pieces without a token are skipped.
pub open spec fn tokens_of(ps: Seq<Seq<char>>) -> Seq<(TokenKind, Seq<char>)>
    decreases ps.len(),
{
    if ps.len() == 0 {
        Seq::empty()
    } else {
        match token_of(ps.last()) {
            Some(t) => tokens_of(ps.drop_last()).push(t),
            None => tokens_of(ps.drop_last()),
        }
    }
}

impl Token {
    pub open spec fn view_pair(self) -> (TokenKind, Seq<char>) {
        (self.kind, self.value@)
    }
}

pub open spec fn tokens_view(v: Seq<Token>) -> Seq<(TokenKind, Seq<char>)> {
    v.map_values(|t: Token| t.view_pair())
}

proof fn lemma_find_colon(p: Seq<char>, k: int)
    requires
        0 <= k <= p.len(),
        forall|j: int| 0 <= j < k ==> p[j] != ':',
        k < p.len() ==> p[k] == ':',
    ensures
        find_colon(p) == (if k < p.len() {
            k
        } else {
            -1
        }),
    decreases p.len(),
{
    if p.len() > 0 && k > 0 {
        assert(p[0] != ':');
        lemma_find_colon(p.drop_first(), k - 1);
    }
}

/// Whether two texts are equal.
pub fn same_text(a: &str, b: &str) -> (r: bool)
    ensures
        r == (a@ == b@),
{
    let n = a.unicode_len();
    if n != b.unicode_len() {
        return false;
    }
    let mut i: usize = 0;
    while i < n
        invariant
            i <= n,
            n == a@.len(),
            n == b@.len(),
            forall|k: int| 0 <= k < i ==> a@[k] == b@[k],
        decreases n - i,
    {
        if a.get_char(i) != b.get_char(i) {
            return false;
        }
        i = i + 1;
    }
    assert(a@ =~= b@);
    true
}

/// The kind a key names, if any.
pub fn kind_of_key(key: &str) -> (r: Option<TokenKind>)
    ensures
        r == kind_of(key@),
{
    let k = to_upper(key);
    let k = k.as_str();
    if same_text(k, "ORG") {
        Some(TokenKind::Org)
    } else if same_text(k, "AS") {
        Some(TokenKind::Asn)
    } else if same_text(k, "A") {
        Some(TokenKind::HostA)
    } else if same_text(k, "AAAA") {
        Some(TokenKind::HostAaaa)
    } else if same_text(k, "IPV4") {
        Some(TokenKind::LiteralV4)
    } else if same_text(k, "IPV6") {
        Some(TokenKind::LiteralV6)
    } else {
        None
    }
}

/// Reads one piece of a specification as a token: the key is the text before the
/// first `:`, the value the text after it. A piece without a `:` or with an unknown
/// key gives no token.
pub fn parse_piece(p: &str) -> (r: Option<Token>)
    ensures
        r is Some <==> token_of(p@) is Some,
        r matches Some(t) ==> token_of(p@) == Some(t.view_pair()),
{
    let n = p.unicode_len();
    let mut c: usize = 0;
    while c < n && p.get_char(c) != ':'
        invariant
            c <= n,
            n == p@.len(),
            forall|j: int| 0 <= j < c ==> p@[j] != ':',
        decreases n - c,
    {
        c = c + 1;
    }
    proof {
        lemma_find_colon(p@, c as int);
    }
    if c == n {
        return None;
    }
    let key = p.substring_char(0, c);
    let val = p.substring_char(c + 1, n);
    assert(key@ =~= p@.take(c as int));
    match kind_of_key(key) {
        None => None,
        Some(kind) => {
            let value = match kind {
                TokenKind::LiteralV4 => val.to_owned(),
                TokenKind::LiteralV6 => to_lower(val),
                _ => to_upper(val),
            };
            Some(Token { kind, value })
        },
    }
}

/// Splits a homebase specification on whitespace and reads each piece as a token,
/// in order; pieces that are not tokens are skipped.
pub fn parse_spec(s: &str) -> (r: Vec<Token>)
    ensures
        tokens_view(r@) == tokens_of(split_ws(s@)),
{
    let n = s.unicode_len();
    let mut out: Vec<Token> = Vec::new();
    let mut start: usize = 0;
    let mut i: usize = 0;
    let ghost mut done: Seq<Seq<char>> = Seq::empty();
    proof {
        assert(s@.take(0) =~= Seq::<char>::empty());
        assert(s@.subrange(0, 0) =~= Seq::<char>::empty());
        assert(split_ws(s@.take(0)) =~= done.push(s@.subrange(0, 0)));
    }
    while i < n
        invariant
            start <= i <= n,
            n == s@.len(),
            split_ws(s@.take(i as int)) == done.push(s@.subrange(start as int, i as int)),
            tokens_view(out@) == tokens_of(done),
        decreases n - i,
    {
        let ch = s.get_char(i);
        let ghost prev = s@.take(i as int);
        assert(s@.take(i as int + 1).drop_last() =~= prev);
        assert(s@.take(i as int + 1).last() == ch);
        if ch == ' ' || ch == '\t' || ch == '\n' || ch == '\x0C' || ch == '\r' {
            let piece = s.substring_char(start, i);
            let t = parse_piece(piece);
            proof {
                let d2 = done.push(piece@);
                assert(d2.drop_last() =~= done);
            }
            match t {
                Some(tok) => {
                    out.push(tok);
                    proof {
                        assert(tokens_view(out@) =~= tokens_view(out@).drop_last().push(tok.view_pair()));
                    }
                },
                None => {},
            }
            proof {
                done = done.push(piece@);
                assert(s@.subrange(i as int + 1, i as int + 1) =~= Seq::<char>::empty());
            }
            start = i + 1;
        } else {
            proof {
                let p = done.push(s@.subrange(start as int, i as int));
                assert(s@.subrange(start as int, i as int).push(ch) =~= s@.subrange(start as int, i as int + 1));
                assert(p.update(p.len() - 1, p.last().push(ch)) =~= done.push(
                    s@.subrange(start as int, i as int + 1),
                ));
            }
        }
        i = i + 1;
    }
    let piece = s.substring_char(start, n);
    let t = parse_piece(piece);
    proof {
        assert(s@.take(n as int) =~= s@);
        let d2 = done.push(piece@);
        assert(d2.drop_last() =~= done);
    }
    match t {
        Some(tok) => {
            out.push(tok);
            proof {
                assert(tokens_view(out@) =~= tokens_view(out@).drop_last().push(tok.view_pair()));
            }
        },
        None => {},
    }
    out
}

} // verus!
