use vstd::prelude::*;
use crate::cidr::{Cidr, cidr_of, sort_cidrs, sorted};
use crate::resolve::literal_line;
use crate::token::{TokenKind, split_ws, token_of, tokens_of};

verus! {

/// Which address families a result keeps.
#[derive(Clone, Copy, Debug, PartialEq, Eq)]
pub enum FamilyFilter {
    Any,
    V4Only,
    V6Only,
}

/// Why a pipeline run produced no networks.
#[derive(Clone, Debug, PartialEq, Eq)]
pub enum BuildError {
    /// A line is not a network prefix; the run stops there.
    Malformed { line: String },
    /// Nothing was left after deduplication and filtering.
    NoCidrs,
}

/// The filter that a pair of family flags asks for; both flags together keep everything.
pub fn family_filter(v4_only: bool, v6_only: bool) -> (r: FamilyFilter)
    ensures
        r == (if v4_only && !v6_only {
            FamilyFilter::V4Only
        } else if v6_only && !v4_only {
            FamilyFilter::V6Only
        } else {
            FamilyFilter::Any
        }),
{
    if v4_only && !v6_only {
        FamilyFilter::V4Only
    } else if v6_only && !v4_only {
        FamilyFilter::V6Only
    } else {
        FamilyFilter::Any
    }
}

pub open spec fn lines_view(v: Seq<String>) -> Seq<Seq<char>> {
    v.map_values(|l: String| l@)
}

/// The lines that are not empty, in order.
pub open spec fn nonblank(s: Seq<Seq<char>>) -> Seq<Seq<char>>
    decreases s.len(),
{
    if s.len() == 0 {
        s
    } else if s.last().len() == 0 {
        nonblank(s.drop_last())
    } else {
        nonblank(s.drop_last()).push(s.last())
    }
}

/// Each line at its first occurrence, in order of first occurrence.
pub open spec fn dedup(s: Seq<Seq<char>>) -> Seq<Seq<char>>
    decreases s.len(),
{
    if s.len() == 0 {
        s
    } else if dedup(s.drop_last()).contains(s.last()) {
        dedup(s.drop_last())
    } else {
        dedup(s.drop_last()).push(s.last())
    }
}

pub open spec fn keeps(f: FamilyFilter, line: Seq<char>) -> bool {
    match f {
        FamilyFilter::Any => true,
        FamilyFilter::V4Only => line.contains('.'),
        FamilyFilter::V6Only => line.contains(':'),
    }
}

/// The lines that a filter keeps, in order.
pub open spec fn select(s: Seq<Seq<char>>, f: FamilyFilter) -> Seq<Seq<char>>
    decreases s.len(),
{
    if s.len() == 0 {
        s
    } else if keeps(f, s.last()) {
        select(s.drop_last(), f).push(s.last())
    } else {
        select(s.drop_last(), f)
    }
}

/// The distinct non-empty lines that the filter keeps, in order of first occurrence.
pub open spec fn pipeline_lines(raw: Seq<Seq<char>>, f: FamilyFilter) -> Seq<Seq<char>> {
    select(dedup(nonblank(raw)), f)
}

pub open spec fn all_parse(s: Seq<Seq<char>>) -> bool {
    forall|i: int| 0 <= i < s.len() ==> (#[trigger] cidr_of(s[i])).is_some()
}

pub open spec fn parsed(s: Seq<Seq<char>>) -> Seq<Cidr> {
    s.map_values(|l: Seq<char>| cidr_of(l).unwrap())
}

proof fn lemma_dedup_sub(s: Seq<Seq<char>>)
    ensures
        forall|x: Seq<char>| dedup(s).contains(x) <==> s.contains(x),
    decreases s.len(),
{
    if s.len() > 0 {
        let p = s.drop_last();
        lemma_dedup_sub(p);
        assert forall|x: Seq<char>| dedup(s).contains(x) <==> s.contains(x) by {
            assert(dedup(p).contains(x) <==> p.contains(x));
            if s.contains(x) {
                let j = choose|j: int| 0 <= j < s.len() && s[j] == x;
                if j < s.len() - 1 {
                    assert(p[j] == x);
                    assert(p.contains(x));
                    let m = choose|m: int| 0 <= m < dedup(p).len() && dedup(p)[m] == x;
                    if !dedup(p).contains(s.last()) {
                        assert(dedup(s)[m] == x);
                    }
                } else if !dedup(p).contains(s.last()) {
                    assert(dedup(s)[dedup(s).len() - 1] == x);
                }
            }
            if dedup(s).contains(x) {
                let j = choose|j: int| 0 <= j < dedup(s).len() && dedup(s)[j] == x;
                if j < dedup(p).len() {
                    assert(dedup(p)[j] == x);
                    assert(dedup(p).contains(x));
                    let k = choose|k: int| 0 <= k < p.len() && p[k] == x;
                    assert(s[k] == x);
                } else {
                    assert(s[s.len() - 1] == x);
                }
            }
        }
    }
}

/// Turns the lines that token resolution produced into the final list of networks:
/// blank lines are skipped, every other line must parse, each line counts once (at
/// its first occurrence), the filter drops the other family, and with `sort` the
/// result is put in natural network order.
pub fn build(raw: &Vec<String>, filter: FamilyFilter, sort: bool) -> (r: Result<Vec<Cidr>, BuildError>)
    ensures
        all_parse(nonblank(lines_view(raw@))) <==> !(r is Err && r->Err_0 is Malformed),
        r matches Err(BuildError::Malformed { line }) ==> exists|k: int|
            0 <= k < nonblank(lines_view(raw@)).len() && #[trigger] nonblank(lines_view(raw@))[k] == line@
                && cidr_of(line@) is None && all_parse(nonblank(lines_view(raw@)).take(k)),
        (r matches Err(BuildError::NoCidrs)) <==> (all_parse(nonblank(lines_view(raw@)))
            && pipeline_lines(lines_view(raw@), filter).len() == 0),
        all_parse(nonblank(lines_view(raw@))) && pipeline_lines(lines_view(raw@), filter).len() > 0 ==> r is Ok,
        r matches Ok(v) ==> {
            let want = parsed(pipeline_lines(lines_view(raw@), filter));
            if sort {
                sorted(v@) && v@.to_multiset() == want.to_multiset()
            } else {
                v@ == want
            }
        },
{
    let ghost rv = lines_view(raw@);
    let mut seen: Vec<String> = Vec::new();
    let mut out: Vec<Cidr> = Vec::new();
    let mut i: usize = 0;
    while i < raw.len()
        invariant
            i <= raw.len(),
            rv == lines_view(raw@),
            lines_view(seen@) == dedup(nonblank(rv.take(i as int))),
            all_parse(nonblank(rv.take(i as int))),
            out@ == parsed(select(dedup(nonblank(rv.take(i as int))), filter)),
        decreases raw.len() - i,
    {
        let line = &raw[i];
        let ghost pre = rv.take(i as int);
        proof {
            assert(rv.take(i as int + 1).drop_last() =~= pre);
            assert(rv.take(i as int + 1).last() == line@);
        }
        if line.as_str().unicode_len() > 0 {
            let c = Cidr::parse(line.as_str());
            match c {
                None => {
                    proof {
                        let n1 = nonblank(rv.take(i as int + 1));
                        assert(n1 == nonblank(pre).push(line@));
                        lemma_nonblank_add(rv.take(i as int + 1), rv.skip(i as int + 1));
                        assert(rv.take(i as int + 1) + rv.skip(i as int + 1) =~= rv);
                        let k = nonblank(pre).len() as int;
                        assert(nonblank(rv)[k] == n1[k]);
                        assert(nonblank(rv).take(k) =~= nonblank(pre));
                    }
                    return Err(BuildError::Malformed { line: line.clone() });
                },
                Some(cidr) => {
                    let mut found = false;
                    let mut j: usize = 0;
                    while j < seen.len()
                        invariant
                            j <= seen.len(),
                            found <==> exists|k: int| 0 <= k < j && seen@[k]@ == line@,
                        decreases seen.len() - j,
                    {
                        if seen[j] == *line {
                            found = true;
                        }
                        j = j + 1;
                    }
                    proof {
                        let n1 = nonblank(rv.take(i as int + 1));
                        assert(n1 == nonblank(pre).push(line@));
                        assert(n1.drop_last() =~= nonblank(pre));
                        assert forall|m: int| 0 <= m < n1.len() implies (#[trigger] cidr_of(n1[m])).is_some() by {
                            if m < n1.len() - 1 {
                                assert(n1[m] == nonblank(pre)[m]);
                            }
                        }
                        if found {
                            let k = choose|k: int| 0 <= k < j && seen@[k]@ == line@;
                            assert(lines_view(seen@)[k] == line@);
                            assert(dedup(n1) == dedup(nonblank(pre)));
                        } else {
                            assert(!lines_view(seen@).contains(line@));
                            assert(dedup(n1) == dedup(nonblank(pre)).push(line@));
                        }
                    }
                    if !found {
                        let ghost sel = select(dedup(nonblank(pre)), filter);
                        seen.push(line.clone());
                        let keep = match filter {
                            FamilyFilter::Any => true,
                            FamilyFilter::V4Only => has_char(line.as_str(), '.'),
                            FamilyFilter::V6Only => has_char(line.as_str(), ':'),
                        };
                        if keep {
                            out.push(cidr);
                        }
                        proof {
                            assert(lines_view(seen@) =~= lines_view(seen@).drop_last().push(line@));
                            assert(parsed(sel.push(line@)) =~= parsed(sel).push(cidr_of(line@).unwrap()));
                            let d1 = dedup(nonblank(pre)).push(line@);
                            assert(d1.drop_last() =~= dedup(nonblank(pre)));
                            assert(d1.last() == line@);
                            assert(keep == keeps(filter, line@));
                            assert(dedup(nonblank(rv.take(i as int + 1))) == d1);
                        }
                    }
                },
            }
        } else {
            proof {
                assert(nonblank(rv.take(i as int + 1)) == nonblank(pre));
            }
        }
        i = i + 1;
    }
    proof {
        assert(rv.take(raw.len() as int) =~= rv);
    }
    if out.len() == 0 {
        return Err(BuildError::NoCidrs);
    }
    if sort {
        Ok(sort_cidrs(out))
    } else {
        Ok(out)
    }
}

proof fn lemma_nonblank_add(a: Seq<Seq<char>>, b: Seq<Seq<char>>)
    ensures
        nonblank(a + b) == nonblank(a) + nonblank(b),
    decreases b.len(),
{
    if b.len() == 0 {
        assert(a + b =~= a);
        assert(nonblank(a) + nonblank(b) =~= nonblank(a));
    } else {
        lemma_nonblank_add(a, b.drop_last());
        assert((a + b).drop_last() =~= a + b.drop_last());
        assert((a + b).last() == b.last());
        if b.last().len() > 0 {
            assert(nonblank(a) + nonblank(b.drop_last()).push(b.last()) =~= (nonblank(a) + nonblank(b.drop_last())).push(b.last()));
        }
    }
}

/// A piece that reads as an IPv4 or IPv6 literal token.
pub open spec fn is_literal_piece(p: Seq<char>) -> bool {
    token_of(p) matches Some(t) && (t.0 == TokenKind::LiteralV4 || t.0 == TokenKind::LiteralV6)
}

proof fn lemma_tokens_of_literals(ps: Seq<Seq<char>>)
    requires
        forall|i: int| 0 <= i < ps.len() ==> (#[trigger] ps[i]).len() == 0 || is_literal_piece(ps[i]),
    ensures
        tokens_of(ps) == nonblank(ps).map_values(|p: Seq<char>| token_of(p)->Some_0),
        forall|i: int|
            0 <= i < tokens_of(ps).len() ==> (#[trigger] tokens_of(ps)[i]).0 == TokenKind::LiteralV4
                || tokens_of(ps)[i].0 == TokenKind::LiteralV6,
    decreases ps.len(),
{
    if ps.len() > 0 {
        let q = ps.drop_last();
        assert forall|i: int| 0 <= i < q.len() implies (#[trigger] q[i]).len() == 0 || is_literal_piece(q[i]) by {
            assert(q[i] == ps[i]);
        }
        lemma_tokens_of_literals(q);
        let l = ps.last();
        assert(l == ps[ps.len() - 1]);
        if l.len() == 0 {
            assert(token_of(l) is None);
        } else {
            assert(nonblank(ps).map_values(|p: Seq<char>| token_of(p)->Some_0) =~= nonblank(q).map_values(
                |p: Seq<char>| token_of(p)->Some_0,
            ).push(token_of(l)->Some_0));
        }
    }
}

/// For a specification whose whitespace-separated pieces are all IPv4 or IPv6
/// literal tokens, every token is a literal (so nothing is looked up), the lines are
/// the pieces' literals in order, given their full-length prefix where they had
/// none, and the pipeline (any family, no sort) yields each of those lines once and
/// nothing else.
pub proof fn lemma_literal_spec_resolves(s: Seq<char>)
    requires
        forall|i: int|
            0 <= i < split_ws(s).len() ==> (#[trigger] split_ws(s)[i]).len() == 0 || is_literal_piece(
                split_ws(s)[i],
            ),
    ensures
        forall|i: int|
            0 <= i < tokens_of(split_ws(s)).len() ==> (#[trigger] tokens_of(split_ws(s))[i]).0
                == TokenKind::LiteralV4 || tokens_of(split_ws(s))[i].0 == TokenKind::LiteralV6,
        tokens_of(split_ws(s)).map_values(|t: (TokenKind, Seq<char>)| literal_token_line(t))
            == nonblank(split_ws(s)).map_values(|p: Seq<char>| literal_token_line(token_of(p)->Some_0)),
        pipeline_lines(tokens_of(split_ws(s)).map_values(|t: (TokenKind, Seq<char>)| literal_token_line(t)), FamilyFilter::Any).no_duplicates(),
        pipeline_lines(tokens_of(split_ws(s)).map_values(|t: (TokenKind, Seq<char>)| literal_token_line(t)), FamilyFilter::Any).to_set()
            == nonblank(split_ws(s)).map_values(|p: Seq<char>| literal_token_line(token_of(p)->Some_0)).to_set(),
{
    let ps = split_ws(s);
    lemma_tokens_of_literals(ps);
    let toks = tokens_of(ps);
    assert(toks.map_values(|t: (TokenKind, Seq<char>)| literal_token_line(t)) =~= nonblank(ps).map_values(
        |p: Seq<char>| literal_token_line(token_of(p)->Some_0),
    ));
    lemma_literal_tokens_resolve(toks);
}

/// Whether the text holds the character.
pub fn has_char(s: &str, c: char) -> (r: bool)
    ensures
        r == s@.contains(c),
{
    let n = s.unicode_len();
    let mut i: usize = 0;
    while i < n
        invariant
            i <= n,
            n == s@.len(),
            forall|k: int| 0 <= k < i ==> s@[k] != c,
        decreases n - i,
    {
        if s.get_char(i) == c {
            assert(s@[i as int] == c);
            return true;
        }
        i = i + 1;
    }
    false
}

/// The line a literal token gives: its value, with `/32` or `/128` appended where
/// it has no prefix.
pub open spec fn literal_token_line(t: (TokenKind, Seq<char>)) -> Seq<char> {
    if t.0 == TokenKind::LiteralV4 {
        literal_line(t.1, "/32"@)
    } else {
        literal_line(t.1, "/128"@)
    }
}

proof fn lemma_nonblank_id(s: Seq<Seq<char>>)
    requires
        forall|i: int| 0 <= i < s.len() ==> (#[trigger] s[i]).len() > 0,
    ensures
        nonblank(s) == s,
    decreases s.len(),
{
    if s.len() > 0 {
        lemma_nonblank_id(s.drop_last());
        assert(s.drop_last().push(s.last()) =~= s);
    }
}

proof fn lemma_select_any(s: Seq<Seq<char>>)
    ensures
        select(s, FamilyFilter::Any) == s,
    decreases s.len(),
{
    if s.len() > 0 {
        lemma_select_any(s.drop_last());
        assert(s.drop_last().push(s.last()) =~= s);
    }
}

proof fn lemma_dedup_distinct(s: Seq<Seq<char>>)
    ensures
        dedup(s).no_duplicates(),
    decreases s.len(),
{
    if s.len() > 0 {
        lemma_dedup_distinct(s.drop_last());
    }
}

/// For a specification of literal tokens only, the pipeline (any family, no sort)
/// yields exactly the tokens' networks, each given its full-length prefix where it
/// had none, and each once.
pub proof fn lemma_literal_tokens_resolve(toks: Seq<(TokenKind, Seq<char>)>)
    requires
        forall|i: int|
            0 <= i < toks.len() ==> (#[trigger] toks[i]).0 == TokenKind::LiteralV4 || toks[i].0
                == TokenKind::LiteralV6,
    ensures
        pipeline_lines(toks.map_values(|t: (TokenKind, Seq<char>)| literal_token_line(t)), FamilyFilter::Any).no_duplicates(),
        pipeline_lines(toks.map_values(|t: (TokenKind, Seq<char>)| literal_token_line(t)), FamilyFilter::Any).to_set()
            == toks.map_values(|t: (TokenKind, Seq<char>)| literal_token_line(t)).to_set(),
{
    let lines = toks.map_values(|t: (TokenKind, Seq<char>)| literal_token_line(t));
    assert forall|i: int| 0 <= i < lines.len() implies (#[trigger] lines[i]).len() > 0 by {
        reveal_strlit("/32");
        reveal_strlit("/128");
        let v = toks[i].1;
        if v.contains('/') {
            assert(v.len() > 0);
        }
    }
    lemma_nonblank_id(lines);
    lemma_select_any(dedup(lines));
    lemma_dedup_distinct(lines);
    lemma_dedup_sub(lines);
    assert(dedup(lines).to_set() =~= lines.to_set());
}

} // verus!
