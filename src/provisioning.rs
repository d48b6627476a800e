//! Deriving the shared rings from the configuration: which rings exist, what
//! they are called and how large they are.

use vstd::prelude::*;
use crate::handler_config::{FeedConfig, HwResourcesConfig, SymbolSet, deref_feeds};
use crate::names::views;
use crate::symbols::SymbolInfoConfig;
use crate::text::{decimal, decimal_text, same_text};

verus! {

/// `s` in upper case, as `str::to_uppercase` gives it.
pub uninterp spec fn upper_of(s: Seq<char>) -> Seq<char>;

/// `s` in lower case, as `str::to_lowercase` gives it.
pub uninterp spec fn lower_of(s: Seq<char>) -> Seq<char>;

/// Relies on `str::to_uppercase`: the result depends on the characters alone,
/// and the empty string stays empty.
#[verifier::external_body]
fn to_upper(s: &str) -> (r: String)
    ensures
        r@ == upper_of(s@),
        s@.len() == 0 ==> r@.len() == 0,
{
    s.to_uppercase()
}

/// Relies on `str::to_lowercase`: the result depends on the characters alone,
/// and the empty string stays empty.
#[verifier::external_body]
fn to_lower(s: &str) -> (r: String)
    ensures
        r@ == lower_of(s@),
        s@.len() == 0 ==> r@.len() == 0,
{
    s.to_lowercase()
}

/// The name of the ring of a feed kind, already in upper case, and a symbol
/// id: `{KIND}_{ID}_PS`.
pub open spec fn ring_name_text(upper_kind: Seq<char>, symbol_id: u32) -> Seq<char> {
    upper_kind + "_"@ + decimal(symbol_id as nat) + "_PS"@
}

/// Returns `{upper_kind}_{symbol_id}_PS`.
pub fn ring_name_from_upper(upper_kind: &str, symbol_id: u32) -> (r: String)
    ensures
        r@ == ring_name_text(upper_kind@, symbol_id),
{
    let mut r = String::from_str(upper_kind);
    r.append("_");
    r.append(decimal_text(symbol_id as u64).as_str());
    r.append("_PS");
    r
}

/// The ring name of a feed kind and a symbol id, e.g. `TOP_0_PS`.
pub fn ring_name(kind: &str, symbol_id: u32) -> (r: String)
    ensures
        r@ == ring_name_text(upper_of(kind@), symbol_id),
{
    let upper = to_upper(kind);
    ring_name_from_upper(upper.as_str(), symbol_id)
}

/// The stream name of a configured symbol: the symbol in lower case.
pub fn stream_name(symbol: &str) -> (r: String)
    ensures
        r@ == lower_of(symbol@),
{
    to_lower(symbol)
}

/// A ring to create.
#[derive(Debug, Clone, PartialEq, Eq)]
pub struct RingSpec {
    pub name: String,
    pub capacity: u32,
    pub symbol: String,
}

/// Why the rings could not be derived.
#[derive(Debug, Clone, PartialEq, Eq)]
pub enum PlanError {
    /// The symbol is not in the symbol table.
    UnknownSymbol(String),
    /// The symbol belongs to no set of its feed.
    SymbolWithoutSet(String),
    /// The directly configured feed of this kind has no ring size.
    MissingRingSize(String),
}

/// The ring size of the first set of `sets` that lists `sym`.
pub open spec fn set_ring_size(sets: Seq<SymbolSet>, sym: Seq<char>) -> Option<u32>
    decreases sets.len(),
{
    if sets.len() == 0 {
        None
    } else if views(sets[0].symbols@).contains(sym) {
        Some(sets[0].ring_size)
    } else {
        set_ring_size(sets.drop_first(), sym)
    }
}

/// The ring size a symbol of a feed gets: that of its set, or the feed's.
pub open spec fn ring_size_for(feed: FeedConfig, sym: Seq<char>) -> Option<u32> {
    if feed.spec_uses_sets() {
        set_ring_size(feed.sets@, sym)
    } else {
        feed.ring_size
    }
}

/// Tells whether `v` holds `s`.
fn holds(v: &Vec<String>, s: &str) -> (r: bool)
    ensures
        r == views(v@).contains(s@),
{
    let mut j: usize = 0;
    while j < v.len()
        invariant
            0 <= j <= v.len(),
            forall|k: int| 0 <= k < j ==> v@[k]@ != s@,
        decreases v.len() - j,
    {
        if same_text(v[j].as_str(), s) {
            assert(views(v@)[j as int] == s@);
            return true;
        }
        j = j + 1;
    }
    assert forall|k: int| 0 <= k < views(v@).len() implies views(v@)[k] != s@ by {
        assert(views(v@)[k] == v@[k]@);
    }
    false
}

fn find_ring_size(sets: &Vec<SymbolSet>, sym: &str) -> (r: Option<u32>)
    ensures
        r == set_ring_size(sets@, sym@),
{
    let mut i: usize = 0;
    assert(sets@.subrange(0, sets@.len() as int) =~= sets@);
    while i < sets.len()
        invariant
            0 <= i <= sets.len(),
            set_ring_size(sets@, sym@) == set_ring_size(sets@.subrange(i as int, sets@.len() as int), sym@),
        decreases sets.len() - i,
    {
        let ghost rest = sets@.subrange(i as int, sets@.len() as int);
        proof {
            assert(rest[0] == sets@[i as int]);
            assert(rest.drop_first() =~= sets@.subrange(i + 1, sets@.len() as int));
        }
        if holds(&sets[i].symbols, sym) {
            return Some(sets[i].ring_size);
        }
        i = i + 1;
    }
    None
}

/// The (feed, symbol) pairs of a list of feeds, feed after feed.
pub open spec fn feed_symbols(fs: Seq<FeedConfig>) -> Seq<(FeedConfig, String)> {
    fs.map_values(|f: FeedConfig| f.spec_all_symbols().map_values(|s: String| (f, s))).flatten()
}

/// The ring that pair `p` gets, or `None` when it cannot get one.
pub open spec fn pair_ok(p: (FeedConfig, String), table: Map<Seq<char>, u32>) -> bool {
    table.contains_key(p.1@) && ring_size_for(p.0, p.1@) is Some
}

/// The rings of every symbol of every feed, in order: one ring per
/// (feed, symbol), named after the feed kind and the symbol's id, and as
/// large as the symbol's set, or the feed, says.
pub fn plan_rings(config: &HwResourcesConfig, symbols: &SymbolInfoConfig) -> (r: Result<Vec<RingSpec>, PlanError>)
    ensures
        ({
            let ps = feed_symbols(config.spec_all_feeds());
            &&& r is Ok <==> forall|k: int| 0 <= k < ps.len() ==> pair_ok(#[trigger] ps[k], symbols.by_name())
            &&& r is Ok ==> r->Ok_0@.len() == ps.len() && forall|k: int| 0 <= k < ps.len() ==> {
                &&& (#[trigger] r->Ok_0@[k]).name@ == ring_name_text(upper_of(ps[k].0.kind@), symbols.by_name()[ps[k].1@])
                &&& r->Ok_0@[k].capacity == ring_size_for(ps[k].0, ps[k].1@)->0
                &&& r->Ok_0@[k].symbol@ == ps[k].1@
            }
        }),
{
    let feeds = config.all_feeds();
    let ghost fs = config.spec_all_feeds();
    let ghost ps = feed_symbols(fs);
    let mut out: Vec<RingSpec> = Vec::new();
    let mut i: usize = 0;
    while i < feeds.len()
        invariant
            0 <= i <= feeds.len(),
            deref_feeds(feeds@) == fs,
            fs == config.spec_all_feeds(),
            ps == feed_symbols(fs),
            out@.len() == feed_symbols(fs.subrange(0, i as int)).len(),
            forall|k: int| 0 <= k < out@.len() ==> pair_ok(#[trigger] feed_symbols(fs.subrange(0, i as int))[k], symbols.by_name()),
            forall|k: int| 0 <= k < out@.len() ==> {
                let p = feed_symbols(fs.subrange(0, i as int))[k];
                &&& (#[trigger] out@[k]).name@ == ring_name_text(upper_of(p.0.kind@), symbols.by_name()[p.1@])
                &&& out@[k].capacity == ring_size_for(p.0, p.1@)->0
                &&& out@[k].symbol@ == p.1@
            },
        decreases feeds.len() - i,
    {
        let feed = feeds[i];
        let syms = feed.all_symbols();
        let ghost f = *feed;
        let ghost before = feed_symbols(fs.subrange(0, i as int));
        let ghost mine = f.spec_all_symbols().map_values(|s: String| (f, s));
        proof {
            assert(f == fs[i as int]);
            let g = |x: FeedConfig| x.spec_all_symbols().map_values(|s: String| (x, s));
            assert(fs.subrange(0, i + 1).map_values(g) =~= fs.subrange(0, i as int).map_values(g).push(mine));
            fs.subrange(0, i as int).map_values(g).lemma_flatten_push(mine);
        }
        let upper = to_upper(feed.kind.as_str());
        let mut j: usize = 0;
        while j < syms.len()
            invariant
                0 <= j <= syms.len(),
                syms@ == f.spec_all_symbols(),
                mine == f.spec_all_symbols().map_values(|s: String| (f, s)),
                before + mine == feed_symbols(fs.subrange(0, i + 1)),
                ps == feed_symbols(fs),
                fs == config.spec_all_feeds(),
                i < fs.len(),
                upper@ == upper_of(f.kind@),
                *feed == f,
                out@.len() == before.len() + j,
                forall|k: int| 0 <= k < out@.len() ==> pair_ok(#[trigger] (before + mine)[k], symbols.by_name()),
                forall|k: int| 0 <= k < out@.len() ==> {
                    let p = (before + mine)[k];
                    &&& (#[trigger] out@[k]).name@ == ring_name_text(upper_of(p.0.kind@), symbols.by_name()[p.1@])
                    &&& out@[k].capacity == ring_size_for(p.0, p.1@)->0
                    &&& out@[k].symbol@ == p.1@
                },
            decreases syms.len() - j,
        {
            let sym = syms[j].as_str();
            proof {
                assert((before + mine)[before.len() + j] == (f, syms@[j as int]));
            }
            let id = match symbols.symbol_id(sym) {
                None => {
                    proof {
                        lemma_plan_fails(ps, before + mine, fs, i as int, before.len() + j, symbols.by_name());
                    }
                    return Err(PlanError::UnknownSymbol(syms[j].clone()));
                },
                Some(id) => id,
            };
            let size = if feed.sets.len() > 0 {
                find_ring_size(&feed.sets, sym)
            } else {
                feed.ring_size
            };
            let capacity = match size {
                None => {
                    proof {
                        lemma_plan_fails(ps, before + mine, fs, i as int, before.len() + j, symbols.by_name());
                    }
                    if feed.sets.len() > 0 {
                        return Err(PlanError::SymbolWithoutSet(syms[j].clone()));
                    } else {
                        return Err(PlanError::MissingRingSize(feed.kind.clone()));
                    }
                },
                Some(c) => c,
            };
            let name = ring_name_from_upper(upper.as_str(), id);
            out.push(RingSpec { name, capacity, symbol: syms[j].clone() });
            j = j + 1;
        }
        proof {
            assert(mine.len() == syms@.len());
            assert(out@.len() == feed_symbols(fs.subrange(0, i + 1)).len());
        }
        i = i + 1;
    }
    proof {
        assert(fs.subrange(0, i as int) =~= fs);
    }
    Ok(out)
}

/// A pair that gets no ring makes the whole plan fail.
proof fn lemma_plan_fails(
    ps: Seq<(FeedConfig, String)>,
    prefix: Seq<(FeedConfig, String)>,
    fs: Seq<FeedConfig>,
    i: int,
    k: int,
    table: Map<Seq<char>, u32>,
)
    requires
        ps == feed_symbols(fs),
        0 <= i < fs.len(),
        prefix == feed_symbols(fs.subrange(0, i + 1)),
        0 <= k < prefix.len(),
        !pair_ok(prefix[k], table),
    ensures
        !(forall|m: int| 0 <= m < ps.len() ==> pair_ok(#[trigger] ps[m], table)),
{
    let g = |x: FeedConfig| x.spec_all_symbols().map_values(|s: String| (x, s));
    assert(fs =~= fs.subrange(0, i + 1) + fs.subrange(i + 1, fs.len() as int));
    vstd::seq_lib::lemma_flatten_concat(fs.subrange(0, i + 1).map_values(g), fs.subrange(i + 1, fs.len() as int).map_values(g));
    assert(fs.map_values(g) =~= fs.subrange(0, i + 1).map_values(g) + fs.subrange(i + 1, fs.len() as int).map_values(g));
    assert(ps[k] == prefix[k]);
}

/// What a feed group of one kind is set up with: the streams its feeds
/// subscribe to and the ring it publishes to.
#[derive(Debug)]
pub struct GroupPlan {
    pub streams: crate::feed::StreamSet,
    pub ring_name: String,
    pub symbol_count: usize,
}

/// Why a feed group could not be set up.
#[derive(Debug, Clone, PartialEq, Eq)]
pub enum GroupPlanError {
    /// No feed of this kind is configured.
    FeedNotFound(String),
    /// The feed of this kind has no symbols.
    NoSymbols(String),
    /// The symbol is not in the symbol table.
    UnknownSymbol(String),
}

pub open spec fn lowered(v: Seq<String>) -> Seq<Seq<char>> {
    v.map_values(|s: String| lower_of(s@))
}

/// Sets up the feed group of `kind`: its streams are the feed's symbols in
/// lower case, and it publishes to the ring of its first symbol.
pub fn plan_feed_group(config: &HwResourcesConfig, symbols: &SymbolInfoConfig, kind: &str) -> (r: Result<GroupPlan, GroupPlanError>)
    ensures
        ({
            let fs = config.spec_all_feeds();
            match r {
                Ok(plan) => exists|k: int| 0 <= k < fs.len() && fs[k].kind@ == kind@
                    && (forall|j: int| 0 <= j < k ==> fs[j].kind@ != kind@) && {
                    let syms = fs[k].spec_all_symbols();
                    &&& syms.len() > 0
                    &&& plan.symbol_count == syms.len()
                    &&& plan.streams.wf()
                    &&& plan.streams@.to_set() == lowered(syms).to_set()
                    &&& symbols.by_name().contains_key(syms[0]@)
                    &&& plan.ring_name@ == ring_name_text(upper_of(kind@), symbols.by_name()[syms[0]@])
                },
                Err(GroupPlanError::FeedNotFound(k)) => k@ == kind@ && forall|j: int| 0 <= j < fs.len() ==> fs[j].kind@ != kind@,
                Err(GroupPlanError::NoSymbols(k)) => k@ == kind@ && exists|j: int| 0 <= j < fs.len() && fs[j].kind@ == kind@
                    && (forall|i: int| 0 <= i < j ==> fs[i].kind@ != kind@)
                    && fs[j].spec_all_symbols().len() == 0,
                Err(GroupPlanError::UnknownSymbol(s)) => exists|j: int| 0 <= j < fs.len() && fs[j].kind@ == kind@
                    && (forall|i: int| 0 <= i < j ==> fs[i].kind@ != kind@)
                    && fs[j].spec_all_symbols().len() > 0 && s@ == fs[j].spec_all_symbols()[0]@
                    && !symbols.by_name().contains_key(s@),
            }
        }),
{
    let feed = match config.find_feed(kind) {
        None => {
            return Err(GroupPlanError::FeedNotFound(String::from_str(kind)));
        },
        Some(f) => f,
    };
    let syms = feed.all_symbols();
    if syms.len() == 0 {
        return Err(GroupPlanError::NoSymbols(String::from_str(kind)));
    }
    let mut streams = crate::feed::StreamSet::new();
    let mut i: usize = 0;
    while i < syms.len()
        invariant
            0 <= i <= syms.len(),
            streams.wf(),
            streams@.to_set() == lowered(syms@).subrange(0, i as int).to_set(),
        decreases syms.len() - i,
    {
        let name = stream_name(syms[i].as_str());
        let ghost prev = streams@;
        let added = streams.insert(name.as_str());
        proof {
            assert(lowered(syms@).subrange(0, i + 1) =~= lowered(syms@).subrange(0, i as int).push(name@));
            lowered(syms@).subrange(0, i as int).lemma_push_to_set_commute(name@);
            if added {
                prev.lemma_push_to_set_commute(name@);
            } else {
                assert(prev.to_set().contains(name@));
                assert(prev.to_set().insert(name@) =~= prev.to_set());
            }
        }
        i = i + 1;
    }
    proof {
        assert(lowered(syms@).subrange(0, i as int) =~= lowered(syms@));
    }
    let id = match symbols.symbol_id(syms[0].as_str()) {
        None => {
            return Err(GroupPlanError::UnknownSymbol(syms[0].clone()));
        },
        Some(id) => id,
    };
    Ok(GroupPlan { streams, ring_name: ring_name(kind, id), symbol_count: syms.len() })
}

} // verus!
