use vstd::prelude::*;
use crate::cidr::Cidr;

verus! {

/// How long a stored result stays fresh, in seconds.
pub const CACHE_TTL_SECS: u64 = 3600;

/// The last result, with the specification it was resolved from and when.
#[derive(Clone, Debug)]
pub struct CacheEntry {
    /// Seconds since the Unix epoch.
    pub produced_at: u64,
    pub homebase_string: String,
    pub cidrs: Vec<Cidr>,
}

/// An entry may be served for a specification that equals the stored one exactly,
/// while less than an hour has passed since it was produced.
pub open spec fn entry_valid(e: CacheEntry, current: Seq<char>, now: int) -> bool {
    e.homebase_string@ == current && now - e.produced_at < CACHE_TTL_SECS
}

/// What a run serves from the entry: its networks where it is valid, else nothing.
pub open spec fn served(e: CacheEntry, current: Seq<char>, now: int) -> Option<Seq<Cidr>> {
    if entry_valid(e, current, now) {
        Some(e.cidrs@)
    } else {
        None
    }
}

impl CacheEntry {
    /// The entry that a fresh resolution stores.
    pub fn new(spec: &str, now: u64, cidrs: Vec<Cidr>) -> (r: CacheEntry)
        ensures
            r.produced_at == now,
            r.homebase_string@ == spec@,
            r.cidrs@ == cidrs@,
    {
        CacheEntry { produced_at: now, homebase_string: spec.to_owned(), cidrs }
    }

    pub fn is_valid(&self, current: &str, now: u64) -> (r: bool)
        ensures
            r == entry_valid(*self, current@, now as int),
    {
        if !crate::token::same_text(self.homebase_string.as_str(), current) {
            return false;
        }
        now < self.produced_at || now - self.produced_at < CACHE_TTL_SECS
    }
}

/// The networks to serve without resolving: those of a loaded entry that is valid
/// for `current` at `now`; `None` (resolve afresh) where there is no entry or it
/// is not valid.
pub fn cached_cidrs(entry: Option<CacheEntry>, current: &str, now: u64) -> (r: Option<Vec<Cidr>>)
    ensures
        entry is None ==> r is None,
        entry matches Some(e) ==> (r is Some <==> served(e, current@, now as int) is Some),
        entry matches Some(e) ==> (r matches Some(v) ==> served(e, current@, now as int) == Some(
            v@,
        )),
{
    match entry {
        None => None,
        Some(e) => {
            if e.is_valid(current, now) {
                Some(e.cidrs)
            } else {
                None
            }
        },
    }
}

/// A fresh entry, read back within the hour for the same specification, serves
/// exactly the networks it was stored with, at every moment of that hour.
pub proof fn lemma_fresh_entry_served(e: CacheEntry, spec: Seq<char>, t1: int, t2: int)
    requires
        e.homebase_string@ == spec,
        e.produced_at <= t1 < e.produced_at + CACHE_TTL_SECS,
        e.produced_at <= t2 < e.produced_at + CACHE_TTL_SECS,
    ensures
        served(e, spec, t1) == Some(e.cidrs@),
        served(e, spec, t1) == served(e, spec, t2),
{
}

/// An entry stored for another specification is never served, however recent.
pub proof fn lemma_changed_spec_not_served(e: CacheEntry, current: Seq<char>, now: int)
    requires
        e.homebase_string@ != current,
    ensures
        served(e, current, now) is None,
{
}

} // verus!
