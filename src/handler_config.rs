//! Configuration of the market-data handler: which feed kinds run, with which
//! symbols, ring sizes, CPU cores and protocol/parser pairs, and the rules a
//! configuration must satisfy before anything is started.

use vstd::prelude::*;
use crate::names::{find_first_repeat, first_repeat, views};
use crate::text::{decimal, decimal_text, parse_u32, parse_u32_spec, same_text, trim, trimmed};
use std::ops::RangeInclusive;

verus! {

/// A protocol/parser combination, such as websocket carrying JSON.
#[derive(Debug, Clone, PartialEq, Eq)]
pub struct Medium {
    /// Protocol type (e.g. "websocket").
    pub protocol: String,
    /// Parser type (e.g. "json", "sbe", "fix").
    pub parser: String,
}

/// A named group of symbols with its own CPU count, ring size and mediums.
#[derive(Debug, Clone, PartialEq, Eq)]
pub struct SymbolSet {
    pub name: String,
    pub num_cpus: u32,
    pub ring_size: u32,
    pub symbols: Vec<String>,
    pub medium: Vec<Medium>,
}

/// The configuration of one feed kind. It either lists its symbols, ring
/// size, CPU count and mediums directly, or groups them in named sets.
#[derive(Debug, Clone, PartialEq, Eq)]
pub struct FeedConfig {
    /// Feed kind (e.g. "top", "trade").
    pub kind: String,
    pub num_cpus: Option<u32>,
    pub ring_size: Option<u32>,
    pub symbols: Vec<String>,
    pub medium: Vec<Medium>,
    pub sets: Vec<SymbolSet>,
}

/// One entry of a pub/sub group.
#[derive(Debug, Clone, PartialEq, Eq)]
pub struct FeedWrapper {
    pub feed: FeedConfig,
}

/// A pub/sub group: the feeds configured together.
#[derive(Debug, Clone, PartialEq, Eq)]
pub struct PubSubConfig {
    pub pubsubs: Vec<FeedWrapper>,
}

/// Where a problem was found: in a named symbol set, or in a feed that is
/// configured directly.
#[derive(Debug, PartialEq, Eq)]
pub enum IssueOwner {
    InSet(String),
    InFeed(String),
}

/// Every reason for which a configuration is refused.
#[derive(Debug, PartialEq, Eq)]
pub enum ConfigIssue {
    EmptyProtocol,
    EmptyParser,
    EmptySetName,
    RingSizeNotPowerOfTwo { ring_size: u32, owner: IssueOwner },
    NoSymbols { owner: IssueOwner },
    EmptySymbol { owner: IssueOwner },
    DuplicateSymbol { symbol: String, owner: IssueOwner },
    NoMedium { owner: IssueOwner },
    DuplicateMedium { protocol: String, parser: String, owner: IssueOwner },
    EmptyKind,
    MixedLayout { feed: String },
    DuplicateSetName { set: String, feed: String },
    DuplicateSymbolAcrossSets { symbol: String, feed: String },
    MissingNumCpus { feed: String },
    MissingRingSize { feed: String },
    NoFeeds,
    DuplicateFeedKind { kind: String },
    NoPubSubs,
    DuplicateMainCpu,
    DuplicateWorkerCpus,
    MissingMainCpu,
    MissingWorkerCpus,
    InvalidCpuRangeFormat { text: String },
    InvalidStartCpu { text: String },
    InvalidEndCpu { text: String },
    CpuRangeReversed { text: String, start: u32, end: u32 },
}

/// Errors of loading the handler configuration.
#[derive(Debug, PartialEq, Eq)]
pub enum HwResourcesConfigError {
    ValidationError(ConfigIssue),
}

/// `n` is a power of two (1, 2, 4, ...).
pub open spec fn is_power_of_two(n: int) -> bool
    decreases n,
{
    if n <= 1 {
        n == 1
    } else {
        n % 2 == 0 && is_power_of_two(n / 2)
    }
}

/// Tells whether `n` is a power of two.
pub fn power_of_two(n: u64) -> (r: bool)
    ensures
        r == is_power_of_two(n as int),
{
    let mut m: u64 = n;
    while m > 1 && m % 2 == 0
        invariant
            is_power_of_two(m as int) == is_power_of_two(n as int),
        decreases m,
    {
        m = m / 2;
    }
    m == 1
}

/// The outcome of a validation whose first problem, if any, is `i`.
pub open spec fn outcome(i: Option<ConfigIssue>) -> Result<(), HwResourcesConfigError> {
    match i {
        None => Ok(()),
        Some(issue) => Err(HwResourcesConfigError::ValidationError(issue)),
    }
}

/// The first problem in a sequence of possible problems.
pub open spec fn first_issue(s: Seq<Option<ConfigIssue>>) -> Option<ConfigIssue>
    decreases s.len(),
{
    if s.len() == 0 {
        None
    } else if s[0] is Some {
        s[0]
    } else {
        first_issue(s.drop_first())
    }
}

pub proof fn lemma_first_issue_at(s: Seq<Option<ConfigIssue>>, i: int)
    requires
        0 <= i < s.len(),
        s[i] is Some,
        forall|k: int| 0 <= k < i ==> s[k] is None,
    ensures
        first_issue(s) == s[i],
    decreases i,
{
    if i > 0 {
        lemma_first_issue_at(s.drop_first(), i - 1);
    }
}

pub proof fn lemma_first_issue_none(s: Seq<Option<ConfigIssue>>)
    requires
        forall|k: int| 0 <= k < s.len() ==> s[k] is None,
    ensures
        first_issue(s) is None,
    decreases s.len(),
{
    if s.len() > 0 {
        lemma_first_issue_none(s.drop_first());
    }
}

/// Some entry is the empty string.
pub open spec fn has_empty(s: Seq<Seq<char>>) -> bool {
    exists|k: int| 0 <= k < s.len() && s[k].len() == 0
}

/// Tells whether some entry of `v` is empty.
fn any_empty(v: &Vec<String>) -> (r: bool)
    ensures
        r == has_empty(views(v@)),
{
    let mut i: usize = 0;
    while i < v.len()
        invariant
            0 <= i <= v.len(),
            forall|k: int| 0 <= k < i ==> v@[k]@.len() != 0,
        decreases v.len() - i,
    {
        if v[i].as_str().is_empty() {
            assert(views(v@)[i as int].len() == 0);
            return true;
        }
        i = i + 1;
    }
    assert forall|k: int| 0 <= k < views(v@).len() implies views(v@)[k].len() != 0 by {
        assert(views(v@)[k] == v@[k]@);
    }
    false
}

/// The display name of a medium: `protocol/parser`.
pub open spec fn medium_name(m: Medium) -> Seq<char> {
    m.protocol@ + seq!['/'] + m.parser@
}

pub open spec fn medium_names(ms: Seq<Medium>) -> Seq<Seq<char>> {
    ms.map_values(|m: Medium| medium_name(m))
}

impl Medium {
    /// The first problem of this medium, if any.
    pub open spec fn issue(self) -> Option<ConfigIssue> {
        if self.protocol@.len() == 0 {
            Some(ConfigIssue::EmptyProtocol)
        } else if self.parser@.len() == 0 {
            Some(ConfigIssue::EmptyParser)
        } else {
            None
        }
    }

    /// Checks that neither the protocol nor the parser is empty.
    pub fn validate(&self) -> (r: Result<(), HwResourcesConfigError>)
        ensures
            r == outcome(self.issue()),
    {
        if self.protocol.as_str().is_empty() {
            return Err(HwResourcesConfigError::ValidationError(ConfigIssue::EmptyProtocol));
        }
        if self.parser.as_str().is_empty() {
            return Err(HwResourcesConfigError::ValidationError(ConfigIssue::EmptyParser));
        }
        Ok(())
    }

    /// Returns `protocol/parser`.
    pub fn name(&self) -> (r: String)
        ensures
            r@ == medium_name(*self),
    {
        let mut r = self.protocol.clone();
        let slash = "/";
        proof {
            reveal_strlit("/");
        }
        r.append(slash);
        r.append(self.parser.as_str());
        r
    }
}

pub open spec fn medium_issues(ms: Seq<Medium>) -> Seq<Option<ConfigIssue>> {
    ms.map_values(|m: Medium| m.issue())
}

/// Validates each medium in order and returns the first problem.
fn validate_mediums(ms: &Vec<Medium>) -> (r: Result<(), HwResourcesConfigError>)
    ensures
        r == outcome(first_issue(medium_issues(ms@))),
{
    let ghost s = medium_issues(ms@);
    let mut i: usize = 0;
    while i < ms.len()
        invariant
            0 <= i <= ms.len(),
            s == medium_issues(ms@),
            forall|k: int| 0 <= k < i ==> s[k] is None,
        decreases ms.len() - i,
    {
        let r = ms[i].validate();
        if r.is_err() {
            proof {
                lemma_first_issue_at(s, i as int);
            }
            return r;
        }
        i = i + 1;
    }
    proof {
        lemma_first_issue_none(s);
    }
    Ok(())
}

/// Position of the first medium whose name repeats an earlier one.
fn first_repeated_medium(ms: &Vec<Medium>) -> (r: Option<usize>)
    ensures
        match r {
            None => first_repeat(medium_names(ms@)) is None,
            Some(j) => first_repeat(medium_names(ms@)) == Some(j as int) && j < ms@.len(),
        },
{
    let mut names: Vec<String> = Vec::new();
    let mut i: usize = 0;
    while i < ms.len()
        invariant
            0 <= i <= ms.len(),
            names@.len() == i,
            forall|k: int| 0 <= k < i ==> #[trigger] names@[k]@ == medium_name(ms@[k]),
        decreases ms.len() - i,
    {
        let n = ms[i].name();
        names.push(n);
        i = i + 1;
    }
    proof {
        assert(views(names@) =~= medium_names(ms@));
    }
    find_first_repeat(&names)
}

/// The first problem among the symbols and mediums of a set or of a directly
/// configured feed, in the order they are checked.
pub open spec fn members_issue(symbols: Seq<String>, medium: Seq<Medium>, owner: IssueOwner) -> Option<ConfigIssue> {
    if symbols.len() == 0 {
        Some(ConfigIssue::NoSymbols { owner })
    } else if has_empty(views(symbols)) {
        Some(ConfigIssue::EmptySymbol { owner })
    } else if first_repeat(views(symbols)) is Some {
        Some(ConfigIssue::DuplicateSymbol { symbol: symbols[first_repeat(views(symbols))->0], owner })
    } else if medium.len() == 0 {
        Some(ConfigIssue::NoMedium { owner })
    } else if first_issue(medium_issues(medium)) is Some {
        first_issue(medium_issues(medium))
    } else if first_repeat(medium_names(medium)) is Some {
        let j = first_repeat(medium_names(medium))->0;
        Some(ConfigIssue::DuplicateMedium { protocol: medium[j].protocol, parser: medium[j].parser, owner })
    } else {
        None
    }
}

/// Checks the symbols and mediums of a set or of a directly configured feed.
fn validate_members(symbols: &Vec<String>, medium: &Vec<Medium>, owner: IssueOwner) -> (r: Result<(), HwResourcesConfigError>)
    ensures
        r == outcome(members_issue(symbols@, medium@, owner)),
{
    if symbols.len() == 0 {
        return Err(HwResourcesConfigError::ValidationError(ConfigIssue::NoSymbols { owner }));
    }
    if any_empty(symbols) {
        return Err(HwResourcesConfigError::ValidationError(ConfigIssue::EmptySymbol { owner }));
    }
    match find_first_repeat(symbols) {
        Some(j) => {
            let symbol = symbols[j].clone();
            return Err(HwResourcesConfigError::ValidationError(ConfigIssue::DuplicateSymbol { symbol, owner }));
        },
        None => {},
    }
    if medium.len() == 0 {
        return Err(HwResourcesConfigError::ValidationError(ConfigIssue::NoMedium { owner }));
    }
    let checked = validate_mediums(medium);
    if checked.is_err() {
        return checked;
    }
    match first_repeated_medium(medium) {
        Some(j) => {
            let protocol = medium[j].protocol.clone();
            let parser = medium[j].parser.clone();
            Err(HwResourcesConfigError::ValidationError(ConfigIssue::DuplicateMedium { protocol, parser, owner }))
        },
        None => Ok(()),
    }
}

impl SymbolSet {
    /// The first problem of this set, if any.
    pub open spec fn issue(self) -> Option<ConfigIssue> {
        if self.name@.len() == 0 {
            Some(ConfigIssue::EmptySetName)
        } else if !is_power_of_two(self.ring_size as int) {
            Some(ConfigIssue::RingSizeNotPowerOfTwo { ring_size: self.ring_size, owner: IssueOwner::InSet(self.name) })
        } else {
            members_issue(self.symbols@, self.medium@, IssueOwner::InSet(self.name))
        }
    }

    /// Checks, in this order: the name is not empty; the ring size is a power
    /// of two; there is at least one symbol, none is empty and none repeats;
    /// there is at least one medium, each is valid and no two share a name.
    pub fn validate(&self) -> (r: Result<(), HwResourcesConfigError>)
        ensures
            r == outcome(self.issue()),
    {
        if self.name.as_str().is_empty() {
            return Err(HwResourcesConfigError::ValidationError(ConfigIssue::EmptySetName));
        }
        if !power_of_two(self.ring_size as u64) {
            let owner = IssueOwner::InSet(self.name.clone());
            return Err(HwResourcesConfigError::ValidationError(
                ConfigIssue::RingSizeNotPowerOfTwo { ring_size: self.ring_size, owner },
            ));
        }
        validate_members(&self.symbols, &self.medium, IssueOwner::InSet(self.name.clone()))
    }
}

pub open spec fn set_issues(sets: Seq<SymbolSet>) -> Seq<Option<ConfigIssue>> {
    sets.map_values(|s: SymbolSet| s.issue())
}

pub open spec fn set_names(sets: Seq<SymbolSet>) -> Seq<String> {
    sets.map_values(|s: SymbolSet| s.name)
}

/// The symbols of all sets, set after set.
pub open spec fn flat_set_symbols(sets: Seq<SymbolSet>) -> Seq<String> {
    sets.map_values(|s: SymbolSet| s.symbols@).flatten()
}

/// The mediums of all sets, set after set.
pub open spec fn flat_set_mediums(sets: Seq<SymbolSet>) -> Seq<Medium> {
    sets.map_values(|s: SymbolSet| s.medium@).flatten()
}

fn validate_sets(sets: &Vec<SymbolSet>) -> (r: Result<(), HwResourcesConfigError>)
    ensures
        r == outcome(first_issue(set_issues(sets@))),
{
    let ghost s = set_issues(sets@);
    let mut i: usize = 0;
    while i < sets.len()
        invariant
            0 <= i <= sets.len(),
            s == set_issues(sets@),
            forall|k: int| 0 <= k < i ==> s[k] is None,
        decreases sets.len() - i,
    {
        let r = sets[i].validate();
        if r.is_err() {
            proof {
                lemma_first_issue_at(s, i as int);
            }
            return r;
        }
        i = i + 1;
    }
    proof {
        lemma_first_issue_none(s);
    }
    Ok(())
}

fn collect_set_names(sets: &Vec<SymbolSet>) -> (r: Vec<String>)
    ensures
        r@ == set_names(sets@),
{
    let mut r: Vec<String> = Vec::new();
    let mut i: usize = 0;
    while i < sets.len()
        invariant
            0 <= i <= sets.len(),
            r@ == set_names(sets@).subrange(0, i as int),
        decreases sets.len() - i,
    {
        r.push(sets[i].name.clone());
        proof {
            assert(r@ =~= set_names(sets@).subrange(0, i + 1));
        }
        i = i + 1;
    }
    proof {
        assert(r@ =~= set_names(sets@));
    }
    r
}

fn collect_set_symbols(sets: &Vec<SymbolSet>) -> (r: Vec<String>)
    ensures
        r@ == flat_set_symbols(sets@),
{
    let mut r: Vec<String> = Vec::new();
    let mut i: usize = 0;
    while i < sets.len()
        invariant
            0 <= i <= sets.len(),
            r@ == flat_set_symbols(sets@.subrange(0, i as int)),
        decreases sets.len() - i,
    {
        let ghost before = r@;
        let syms = &sets[i].symbols;
        let mut k: usize = 0;
        while k < syms.len()
            invariant
                0 <= k <= syms.len(),
                i < sets.len(),
                syms == &sets@[i as int].symbols,
                r@ == before + syms@.subrange(0, k as int),
            decreases syms.len() - k,
        {
            r.push(syms[k].clone());
            proof {
                assert(r@ =~= before + syms@.subrange(0, k + 1));
            }
            k = k + 1;
        }
        proof {
            let f = |s: SymbolSet| s.symbols@;
            assert(sets@.subrange(0, i + 1).map_values(f) =~= sets@.subrange(0, i as int).map_values(f).push(syms@));
            sets@.subrange(0, i as int).map_values(f).lemma_flatten_push(syms@);
            assert(r@ =~= flat_set_symbols(sets@.subrange(0, i + 1)));
        }
        i = i + 1;
    }
    proof {
        assert(sets@.subrange(0, sets@.len() as int) =~= sets@);
    }
    r
}

/// The mediums that a sequence of references points to.
pub open spec fn deref_all(r: Seq<&Medium>) -> Seq<Medium> {
    r.map_values(|m: &Medium| *m)
}

fn collect_set_mediums<'a>(sets: &'a Vec<SymbolSet>) -> (r: Vec<&'a Medium>)
    ensures
        deref_all(r@) == flat_set_mediums(sets@),
{
    let mut r: Vec<&'a Medium> = Vec::new();
    let mut i: usize = 0;
    while i < sets.len()
        invariant
            0 <= i <= sets.len(),
            deref_all(r@) == flat_set_mediums(sets@.subrange(0, i as int)),
        decreases sets.len() - i,
    {
        let ghost before = deref_all(r@);
        let ms = &sets[i].medium;
        let mut k: usize = 0;
        while k < ms.len()
            invariant
                0 <= k <= ms.len(),
                i < sets.len(),
                ms == &sets@[i as int].medium,
                deref_all(r@) == before + ms@.subrange(0, k as int),
            decreases ms.len() - k,
        {
            let ghost prev = r@;
            r.push(&ms[k]);
            proof {
                assert(deref_all(r@) =~= deref_all(prev).push(ms@[k as int]));
                assert(deref_all(r@) =~= before + ms@.subrange(0, k + 1));
            }
            k = k + 1;
        }
        proof {
            let f = |s: SymbolSet| s.medium@;
            assert(sets@.subrange(0, i + 1).map_values(f) =~= sets@.subrange(0, i as int).map_values(f).push(ms@));
            sets@.subrange(0, i as int).map_values(f).lemma_flatten_push(ms@);
            assert(deref_all(r@) =~= flat_set_mediums(sets@.subrange(0, i + 1)));
        }
        i = i + 1;
    }
    proof {
        assert(sets@.subrange(0, sets@.len() as int) =~= sets@);
    }
    r
}

impl FeedConfig {
    pub open spec fn spec_uses_sets(self) -> bool {
        self.sets@.len() > 0
    }

    /// Some field of the direct layout is given.
    pub open spec fn has_direct(self) -> bool {
        self.num_cpus is Some || self.ring_size is Some || self.symbols@.len() > 0 || self.medium@.len() > 0
    }

    /// The first problem of this feed, if any.
    pub open spec fn issue(self) -> Option<ConfigIssue> {
        let sets = self.sets@;
        if self.kind@.len() == 0 {
            Some(ConfigIssue::EmptyKind)
        } else if self.spec_uses_sets() && self.has_direct() {
            Some(ConfigIssue::MixedLayout { feed: self.kind })
        } else if self.spec_uses_sets() {
            if first_issue(set_issues(sets)) is Some {
                first_issue(set_issues(sets))
            } else if first_repeat(views(set_names(sets))) is Some {
                let j = first_repeat(views(set_names(sets)))->0;
                Some(ConfigIssue::DuplicateSetName { set: sets[j].name, feed: self.kind })
            } else if first_repeat(views(flat_set_symbols(sets))) is Some {
                let j = first_repeat(views(flat_set_symbols(sets)))->0;
                Some(ConfigIssue::DuplicateSymbolAcrossSets { symbol: flat_set_symbols(sets)[j], feed: self.kind })
            } else {
                None
            }
        } else if self.num_cpus is None {
            Some(ConfigIssue::MissingNumCpus { feed: self.kind })
        } else if self.ring_size is None {
            Some(ConfigIssue::MissingRingSize { feed: self.kind })
        } else if !is_power_of_two(self.ring_size->0 as int) {
            Some(ConfigIssue::RingSizeNotPowerOfTwo { ring_size: self.ring_size->0, owner: IssueOwner::InFeed(self.kind) })
        } else {
            members_issue(self.symbols@, self.medium@, IssueOwner::InFeed(self.kind))
        }
    }

    /// The symbols of the feed: those of all sets, set after set, or the
    /// directly listed ones.
    pub open spec fn spec_all_symbols(self) -> Seq<String> {
        if self.spec_uses_sets() {
            flat_set_symbols(self.sets@)
        } else {
            self.symbols@
        }
    }

    /// The mediums of the feed: those of all sets, set after set, or the
    /// directly listed ones.
    pub open spec fn spec_all_mediums(self) -> Seq<Medium> {
        if self.spec_uses_sets() {
            flat_set_mediums(self.sets@)
        } else {
            self.medium@
        }
    }

    /// Returns the feed kind.
    pub fn name(&self) -> (r: &str)
        ensures
            r@ == self.kind@,
    {
        self.kind.as_str()
    }

    /// Validates the feed. A feed uses either named sets or the direct
    /// layout, never both. With sets: each set is valid, no two sets share a
    /// name and no symbol appears twice across sets. Directly: the CPU count
    /// and ring size are given, the ring size is a power of two, and the
    /// symbols and mediums pass the same checks as within a set.
    pub fn validate(&self) -> (r: Result<(), HwResourcesConfigError>)
        ensures
            r == outcome(self.issue()),
    {
        if self.kind.as_str().is_empty() {
            return Err(HwResourcesConfigError::ValidationError(ConfigIssue::EmptyKind));
        }
        let has_sets = self.sets.len() > 0;
        let has_direct = self.num_cpus.is_some() || self.ring_size.is_some() || self.symbols.len() > 0
            || self.medium.len() > 0;
        if has_sets && has_direct {
            return Err(HwResourcesConfigError::ValidationError(ConfigIssue::MixedLayout { feed: self.kind.clone() }));
        }
        if has_sets {
            let checked = validate_sets(&self.sets);
            if checked.is_err() {
                return checked;
            }
            let names = collect_set_names(&self.sets);
            match find_first_repeat(&names) {
                Some(j) => {
                    let set = names[j].clone();
                    return Err(HwResourcesConfigError::ValidationError(
                        ConfigIssue::DuplicateSetName { set, feed: self.kind.clone() },
                    ));
                },
                None => {},
            }
            let symbols = collect_set_symbols(&self.sets);
            match find_first_repeat(&symbols) {
                Some(j) => {
                    let symbol = symbols[j].clone();
                    return Err(HwResourcesConfigError::ValidationError(
                        ConfigIssue::DuplicateSymbolAcrossSets { symbol, feed: self.kind.clone() },
                    ));
                },
                None => {},
            }
            return Ok(());
        }
        let ring_size = match (self.num_cpus, self.ring_size) {
            (None, _) => {
                return Err(HwResourcesConfigError::ValidationError(ConfigIssue::MissingNumCpus { feed: self.kind.clone() }));
            },
            (Some(_), None) => {
                return Err(HwResourcesConfigError::ValidationError(ConfigIssue::MissingRingSize { feed: self.kind.clone() }));
            },
            (Some(_), Some(ring_size)) => ring_size,
        };
        if !power_of_two(ring_size as u64) {
            let owner = IssueOwner::InFeed(self.kind.clone());
            return Err(HwResourcesConfigError::ValidationError(ConfigIssue::RingSizeNotPowerOfTwo { ring_size, owner }));
        }
        validate_members(&self.symbols, &self.medium, IssueOwner::InFeed(self.kind.clone()))
    }

    /// Returns all symbols of the feed, set after set when it uses sets.
    pub fn all_symbols(&self) -> (r: Vec<String>)
        ensures
            r@ == self.spec_all_symbols(),
    {
        if self.sets.len() > 0 {
            collect_set_symbols(&self.sets)
        } else {
            let mut r: Vec<String> = Vec::new();
            let mut i: usize = 0;
            while i < self.symbols.len()
                invariant
                    0 <= i <= self.symbols.len(),
                    r@ == self.symbols@.subrange(0, i as int),
                decreases self.symbols.len() - i,
            {
                r.push(self.symbols[i].clone());
                proof {
                    assert(r@ =~= self.symbols@.subrange(0, i + 1));
                }
                i = i + 1;
            }
            proof {
                assert(r@ =~= self.symbols@);
            }
            r
        }
    }

    /// Returns whether this feed uses symbol sets.
    pub fn uses_sets(&self) -> (r: bool)
        ensures
            r == self.spec_uses_sets(),
    {
        self.sets.len() > 0
    }

    /// Returns all mediums of the feed, set after set when it uses sets.
    pub fn all_mediums(&self) -> (r: Vec<&Medium>)
        ensures
            deref_all(r@) == self.spec_all_mediums(),
    {
        if self.sets.len() > 0 {
            collect_set_mediums(&self.sets)
        } else {
            let mut r: Vec<&Medium> = Vec::new();
            let mut i: usize = 0;
            while i < self.medium.len()
                invariant
                    0 <= i <= self.medium.len(),
                    deref_all(r@) == self.medium@.subrange(0, i as int),
                decreases self.medium.len() - i,
            {
                let ghost prev = r@;
                r.push(&self.medium[i]);
                proof {
                    assert(deref_all(r@) =~= deref_all(prev).push(self.medium@[i as int]));
                    assert(deref_all(r@) =~= self.medium@.subrange(0, i + 1));
                }
                i = i + 1;
            }
            proof {
                assert(deref_all(r@) =~= self.medium@);
            }
            r
        }
    }
}

pub open spec fn feed_issues(fs: Seq<FeedWrapper>) -> Seq<Option<ConfigIssue>> {
    fs.map_values(|w: FeedWrapper| w.feed.issue())
}

pub open spec fn feed_kinds(fs: Seq<FeedWrapper>) -> Seq<String> {
    fs.map_values(|w: FeedWrapper| w.feed.kind)
}

impl PubSubConfig {
    /// The first problem of this group, if any.
    pub open spec fn issue(self) -> Option<ConfigIssue> {
        let fs = self.pubsubs@;
        if fs.len() == 0 {
            Some(ConfigIssue::NoFeeds)
        } else if first_issue(feed_issues(fs)) is Some {
            first_issue(feed_issues(fs))
        } else if first_repeat(views(feed_kinds(fs))) is Some {
            Some(ConfigIssue::DuplicateFeedKind { kind: fs[first_repeat(views(feed_kinds(fs)))->0].feed.kind })
        } else {
            None
        }
    }

    /// Checks that the group has a feed, that each feed is valid and that no
    /// two feeds share a kind.
    pub fn validate(&self) -> (r: Result<(), HwResourcesConfigError>)
        ensures
            r == outcome(self.issue()),
    {
        if self.pubsubs.len() == 0 {
            return Err(HwResourcesConfigError::ValidationError(ConfigIssue::NoFeeds));
        }
        let ghost s = feed_issues(self.pubsubs@);
        let mut i: usize = 0;
        while i < self.pubsubs.len()
            invariant
                0 <= i <= self.pubsubs.len(),
                s == feed_issues(self.pubsubs@),
                forall|k: int| 0 <= k < i ==> s[k] is None,
            decreases self.pubsubs.len() - i,
        {
            let r = self.pubsubs[i].feed.validate();
            if r.is_err() {
                proof {
                    lemma_first_issue_at(s, i as int);
                }
                return r;
            }
            i = i + 1;
        }
        proof {
            lemma_first_issue_none(s);
        }
        let mut kinds: Vec<String> = Vec::new();
        let mut i: usize = 0;
        while i < self.pubsubs.len()
            invariant
                0 <= i <= self.pubsubs.len(),
                kinds@ == feed_kinds(self.pubsubs@).subrange(0, i as int),
            decreases self.pubsubs.len() - i,
        {
            kinds.push(self.pubsubs[i].feed.kind.clone());
            proof {
                assert(kinds@ =~= feed_kinds(self.pubsubs@).subrange(0, i + 1));
            }
            i = i + 1;
        }
        proof {
            assert(kinds@ =~= feed_kinds(self.pubsubs@));
        }
        match find_first_repeat(&kinds) {
            Some(j) => {
                let kind = kinds[j].clone();
                Err(HwResourcesConfigError::ValidationError(ConfigIssue::DuplicateFeedKind { kind }))
            },
            None => Ok(()),
        }
    }
}

/// One entry of the configuration document's root list.
#[derive(Debug, Clone, PartialEq, Eq)]
pub enum ConfigItem {
    MainCpu { main_cpu: u32 },
    WorkerCpus { worker_cpus: String },
    PubSubs { pubsubs: Vec<FeedWrapper> },
}

/// The root configuration of the market-data handler.
#[derive(Debug, PartialEq, Eq)]
pub struct HwResourcesConfig {
    /// Main CPU core for the handler.
    pub main_cpu: u32,
    /// Worker CPU cores, both ends included (e.g. "1-12" gives 1..=12).
    pub worker_cpus: RangeInclusive<u32>,
    /// The pub/sub groups.
    pub pubsub_configs: Vec<PubSubConfig>,
}

/// The two halves of `s` around its only `-`, if it has exactly one.
pub open spec fn split_dash(s: Seq<char>) -> Option<(Seq<char>, Seq<char>)> {
    if exists|k: int| 0 <= k < s.len() && s[k] == '-' && (forall|j: int| 0 <= j < s.len() && s[j] == '-' ==> j == k) {
        let k = choose|k: int| 0 <= k < s.len() && s[k] == '-' && (forall|j: int| 0 <= j < s.len() && s[j] == '-' ==> j == k);
        Some((s.subrange(0, k), s.subrange(k + 1, s.len() as int)))
    } else {
        None
    }
}

/// The bounds of a CPU range written `start-end`, if it is well formed.
pub open spec fn cpu_bounds(s: Seq<char>) -> Option<(u32, u32)> {
    match split_dash(s) {
        None => None,
        Some((a, b)) => match (parse_u32_spec(trimmed(a)), parse_u32_spec(trimmed(b))) {
            (Some(x), Some(y)) => if x <= y { Some((x, y)) } else { None },
            _ => None,
        },
    }
}

/// `e` is the problem reported for the malformed CPU range `s`.
pub open spec fn cpu_range_error(s: Seq<char>, e: ConfigIssue) -> bool {
    match split_dash(s) {
        None => e is InvalidCpuRangeFormat && e->InvalidCpuRangeFormat_text@ == s,
        Some((a, b)) => match (parse_u32_spec(trimmed(a)), parse_u32_spec(trimmed(b))) {
            (None, _) => e is InvalidStartCpu && e->InvalidStartCpu_text@ == s,
            (Some(_), None) => e is InvalidEndCpu && e->InvalidEndCpu_text@ == s,
            (Some(x), Some(y)) => x > y && e is CpuRangeReversed && e->CpuRangeReversed_text@ == s
                && e->CpuRangeReversed_start == x && e->CpuRangeReversed_end == y,
        },
    }
}

/// Finds the only `-` of `s`, if it has exactly one.
fn only_dash(s: &str) -> (r: Option<usize>)
    ensures
        match r {
            None => split_dash(s@) is None,
            Some(k) => k < s@.len() && split_dash(s@) == Some((s@.subrange(0, k as int), s@.subrange(k + 1, s@.len() as int))),
        },
{
    let n = s.unicode_len();
    let mut found: Option<usize> = None;
    let mut i: usize = 0;
    while i < n
        invariant
            n == s@.len(),
            0 <= i <= n,
            match found {
                None => forall|j: int| 0 <= j < i ==> s@[j] != '-',
                Some(k) => k < i && s@[k as int] == '-' && forall|j: int| 0 <= j < i && s@[j] == '-' ==> j == k,
            },
        decreases n - i,
    {
        if s.get_char(i) == '-' {
            match found {
                Some(k) => {
                    proof {
                        assert(split_dash(s@) is None) by {
                            if exists|m: int| 0 <= m < s@.len() && s@[m] == '-' && (forall|j: int| 0 <= j < s@.len() && s@[j] == '-' ==> j == m) {
                                let m = choose|m: int| 0 <= m < s@.len() && s@[m] == '-' && (forall|j: int| 0 <= j < s@.len() && s@[j] == '-' ==> j == m);
                                assert(k == m);
                                assert(i == m);
                            }
                        }
                    }
                    return None;
                },
                None => {
                    found = Some(i);
                },
            }
        }
        i = i + 1;
    }
    match found {
        None => {
            proof {
                assert(split_dash(s@) is None);
            }
            None
        },
        Some(k) => {
            proof {
                let p = |m: int| 0 <= m < s@.len() && s@[m] == '-' && (forall|j: int| 0 <= j < s@.len() && s@[j] == '-' ==> j == m);
                assert(p(k as int));
                let m = choose|m: int| 0 <= m < s@.len() && s@[m] == '-' && (forall|j: int| 0 <= j < s@.len() && s@[j] == '-' ==> j == m);
                assert(m == k);
            }
            Some(k)
        },
    }
}

impl HwResourcesConfig {
    /// Reads a CPU range written `start-end` (e.g. "1-12"); each bound may be
    /// surrounded by whitespace.
    pub fn parse_cpu_range(s: &str) -> (r: Result<RangeInclusive<u32>, HwResourcesConfigError>)
        ensures
            r is Ok <==> cpu_bounds(s@) is Some,
            r is Ok ==> cpu_bounds(s@) == Some((r->Ok_0@.start, r->Ok_0@.end)) && !r->Ok_0@.exhausted,
            r is Err ==> cpu_range_error(s@, r->Err_0->ValidationError_0),
    {
        let k = match only_dash(s) {
            None => {
                let text = String::from_str(s);
                return Err(HwResourcesConfigError::ValidationError(ConfigIssue::InvalidCpuRangeFormat { text }));
            },
            Some(k) => k,
        };
        let n = s.unicode_len();
        let a = s.substring_char(0, k);
        let b = s.substring_char(k + 1, n);
        let start = match parse_u32(trim(a)) {
            None => {
                let text = String::from_str(s);
                return Err(HwResourcesConfigError::ValidationError(ConfigIssue::InvalidStartCpu { text }));
            },
            Some(x) => x,
        };
        let end = match parse_u32(trim(b)) {
            None => {
                let text = String::from_str(s);
                return Err(HwResourcesConfigError::ValidationError(ConfigIssue::InvalidEndCpu { text }));
            },
            Some(y) => y,
        };
        if start > end {
            let text = String::from_str(s);
            return Err(HwResourcesConfigError::ValidationError(ConfigIssue::CpuRangeReversed { text, start, end }));
        }
        Ok(RangeInclusive::new(start, end))
    }
}

/// The main and worker CPU entries met in `items`, or the first entry given
/// twice.
pub open spec fn scan_items(items: Seq<ConfigItem>) -> Result<(Option<u32>, Option<String>), ConfigIssue>
    decreases items.len(),
{
    if items.len() == 0 {
        Ok((None, None))
    } else {
        match scan_items(items.drop_last()) {
            Err(e) => Err(e),
            Ok((m, w)) => match items.last() {
                ConfigItem::MainCpu { main_cpu } => if m is Some {
                    Err(ConfigIssue::DuplicateMainCpu)
                } else {
                    Ok((Some(main_cpu), w))
                },
                ConfigItem::WorkerCpus { worker_cpus } => if w is Some {
                    Err(ConfigIssue::DuplicateWorkerCpus)
                } else {
                    Ok((m, Some(worker_cpus)))
                },
                ConfigItem::PubSubs { .. } => Ok((m, w)),
            },
        }
    }
}

/// The pub/sub groups of `items`, in order.
pub open spec fn item_groups(items: Seq<ConfigItem>) -> Seq<PubSubConfig>
    decreases items.len(),
{
    if items.len() == 0 {
        Seq::empty()
    } else {
        match items.last() {
            ConfigItem::PubSubs { pubsubs } => item_groups(items.drop_last()).push(PubSubConfig { pubsubs }),
            _ => item_groups(items.drop_last()),
        }
    }
}

pub open spec fn group_issues(gs: Seq<PubSubConfig>) -> Seq<Option<ConfigIssue>> {
    gs.map_values(|g: PubSubConfig| g.issue())
}

/// The first problem of a list of pub/sub groups, if any.
pub open spec fn groups_issue(gs: Seq<PubSubConfig>) -> Option<ConfigIssue> {
    if gs.len() == 0 {
        Some(ConfigIssue::NoPubSubs)
    } else {
        first_issue(group_issues(gs))
    }
}

/// `r` is the outcome of reading a configuration document whose root list
/// holds `items`.
pub open spec fn items_outcome(items: Seq<ConfigItem>, r: Result<HwResourcesConfig, HwResourcesConfigError>) -> bool {
    match scan_items(items) {
        Err(e) => r == Err::<HwResourcesConfig, _>(HwResourcesConfigError::ValidationError(e)),
        Ok((None, _)) => r == Err::<HwResourcesConfig, _>(HwResourcesConfigError::ValidationError(ConfigIssue::MissingMainCpu)),
        Ok((Some(_), None)) => r == Err::<HwResourcesConfig, _>(
            HwResourcesConfigError::ValidationError(ConfigIssue::MissingWorkerCpus),
        ),
        Ok((Some(m), Some(w))) => match cpu_bounds(w@) {
            None => r is Err && cpu_range_error(w@, r->Err_0->ValidationError_0),
            Some((a, b)) => match groups_issue(item_groups(items)) {
                Some(i) => r == Err::<HwResourcesConfig, _>(HwResourcesConfigError::ValidationError(i)),
                None => r is Ok && r->Ok_0.main_cpu == m && r->Ok_0.worker_cpus@.start == a
                    && r->Ok_0.worker_cpus@.end == b && !r->Ok_0.worker_cpus@.exhausted
                    && r->Ok_0.pubsub_configs@ == item_groups(items),
            },
        },
    }
}

impl HwResourcesConfig {
    pub open spec fn issue(self) -> Option<ConfigIssue> {
        groups_issue(self.pubsub_configs@)
    }

    /// Checks that there is at least one pub/sub group and that each is
    /// valid.
    pub fn validate(&self) -> (r: Result<(), HwResourcesConfigError>)
        ensures
            r == outcome(self.issue()),
    {
        if self.pubsub_configs.len() == 0 {
            return Err(HwResourcesConfigError::ValidationError(ConfigIssue::NoPubSubs));
        }
        let ghost s = group_issues(self.pubsub_configs@);
        let mut i: usize = 0;
        while i < self.pubsub_configs.len()
            invariant
                0 <= i <= self.pubsub_configs.len(),
                s == group_issues(self.pubsub_configs@),
                forall|k: int| 0 <= k < i ==> s[k] is None,
            decreases self.pubsub_configs.len() - i,
        {
            let r = self.pubsub_configs[i].validate();
            if r.is_err() {
                proof {
                    lemma_first_issue_at(s, i as int);
                }
                return r;
            }
            i = i + 1;
        }
        proof {
            lemma_first_issue_none(s);
        }
        Ok(())
    }

    /// Builds and validates the configuration from the entries of the
    /// document's root list: exactly one main CPU, exactly one worker CPU
    /// range, and the pub/sub groups in order.
    pub fn from_items(entries: Vec<ConfigItem>) -> (r: Result<HwResourcesConfig, HwResourcesConfigError>)
        ensures
            items_outcome(entries@, r),
    {
        let ghost all = entries@;
        let mut items = entries;
        assert(all.len() == items.len());
        let mut main_cpu: Option<u32> = None;
        let mut worker_cpus: Option<String> = None;
        let mut pubsub_configs: Vec<PubSubConfig> = Vec::new();
        let mut i: usize = 0;
        while items.len() > 0
            invariant
                all == entries@,
                all.len() <= usize::MAX,
                i + items@.len() == all.len(),
                items@ == all.subrange(i as int, all.len() as int),
                scan_items(all.subrange(0, i as int)) == Ok::<_, ConfigIssue>((main_cpu, worker_cpus)),
                pubsub_configs@ == item_groups(all.subrange(0, i as int)),
            decreases items.len(),
        {
            let item = items.remove(0);
            proof {
                assert(all.subrange(0, i + 1).drop_last() =~= all.subrange(0, i as int));
                assert(all.subrange(0, i + 1).last() == item);
                assert(items@ =~= all.subrange(i + 1, all.len() as int));
            }
            match item {
                ConfigItem::MainCpu { main_cpu: cpu } => {
                    if main_cpu.is_some() {
                        proof {
                            assert(scan_items(all.subrange(0, i + 1)) == Err::<(Option<u32>, Option<String>), ConfigIssue>(
                                ConfigIssue::DuplicateMainCpu,
                            ));
                            lemma_scan_stops(all, i as int + 1);
                        }
                        return Err(HwResourcesConfigError::ValidationError(ConfigIssue::DuplicateMainCpu));
                    }
                    main_cpu = Some(cpu);
                },
                ConfigItem::WorkerCpus { worker_cpus: cpus } => {
                    if worker_cpus.is_some() {
                        proof {
                            assert(scan_items(all.subrange(0, i + 1)) == Err::<(Option<u32>, Option<String>), ConfigIssue>(
                                ConfigIssue::DuplicateWorkerCpus,
                            ));
                            lemma_scan_stops(all, i as int + 1);
                        }
                        return Err(HwResourcesConfigError::ValidationError(ConfigIssue::DuplicateWorkerCpus));
                    }
                    worker_cpus = Some(cpus);
                },
                ConfigItem::PubSubs { pubsubs } => {
                    pubsub_configs.push(PubSubConfig { pubsubs });
                },
            }
            i = i + 1;
        }
        proof {
            assert(all.subrange(0, i as int) =~= all);
        }
        let main_cpu = match main_cpu {
            None => {
                return Err(HwResourcesConfigError::ValidationError(ConfigIssue::MissingMainCpu));
            },
            Some(m) => m,
        };
        let worker_text = match worker_cpus {
            None => {
                return Err(HwResourcesConfigError::ValidationError(ConfigIssue::MissingWorkerCpus));
            },
            Some(w) => w,
        };
        let worker_cpus = match HwResourcesConfig::parse_cpu_range(worker_text.as_str()) {
            Err(e) => {
                return Err(e);
            },
            Ok(range) => range,
        };
        let config = HwResourcesConfig { main_cpu, worker_cpus, pubsub_configs };
        match config.validate() {
            Err(e) => Err(e),
            Ok(()) => Ok(config),
        }
    }
}

/// Once an entry is given twice, later entries do not change the outcome.
proof fn lemma_scan_stops(all: Seq<ConfigItem>, n: int)
    requires
        0 < n <= all.len(),
        scan_items(all.subrange(0, n)) is Err,
    ensures
        scan_items(all) == scan_items(all.subrange(0, n)),
    decreases all.len() - n,
{
    if n == all.len() {
        assert(all.subrange(0, n) =~= all);
    } else {
        assert(all.subrange(0, n + 1).drop_last() =~= all.subrange(0, n));
        lemma_scan_stops(all, n + 1);
    }
}

/// The feeds of all groups, group after group.
pub open spec fn feeds_of(gs: Seq<PubSubConfig>) -> Seq<FeedConfig> {
    gs.map_values(|g: PubSubConfig| g.pubsubs@.map_values(|w: FeedWrapper| w.feed)).flatten()
}

/// The feed configurations that a sequence of references points to.
pub open spec fn deref_feeds(r: Seq<&FeedConfig>) -> Seq<FeedConfig> {
    r.map_values(|f: &FeedConfig| *f)
}

impl HwResourcesConfig {
    pub open spec fn spec_all_feeds(self) -> Seq<FeedConfig> {
        feeds_of(self.pubsub_configs@)
    }

    /// Returns the feeds of all pub/sub groups, group after group.
    pub fn all_feeds(&self) -> (r: Vec<&FeedConfig>)
        ensures
            deref_feeds(r@) == self.spec_all_feeds(),
    {
        let gs = &self.pubsub_configs;
        let mut r: Vec<&FeedConfig> = Vec::new();
        let mut i: usize = 0;
        while i < gs.len()
            invariant
                0 <= i <= gs.len(),
                gs == &self.pubsub_configs,
                deref_feeds(r@) == feeds_of(gs@.subrange(0, i as int)),
            decreases gs.len() - i,
        {
            let ghost before = deref_feeds(r@);
            let ws = &gs[i].pubsubs;
            let ghost fs = ws@.map_values(|w: FeedWrapper| w.feed);
            let mut k: usize = 0;
            while k < ws.len()
                invariant
                    0 <= k <= ws.len(),
                    i < gs.len(),
                    ws == &gs@[i as int].pubsubs,
                    fs == ws@.map_values(|w: FeedWrapper| w.feed),
                    deref_feeds(r@) == before + fs.subrange(0, k as int),
                decreases ws.len() - k,
            {
                let ghost prev = r@;
                r.push(&ws[k].feed);
                proof {
                    assert(deref_feeds(r@) =~= deref_feeds(prev).push(fs[k as int]));
                    assert(deref_feeds(r@) =~= before + fs.subrange(0, k + 1));
                }
                k = k + 1;
            }
            proof {
                let f = |g: PubSubConfig| g.pubsubs@.map_values(|w: FeedWrapper| w.feed);
                assert(gs@.subrange(0, i + 1).map_values(f) =~= gs@.subrange(0, i as int).map_values(f).push(fs));
                gs@.subrange(0, i as int).map_values(f).lemma_flatten_push(fs);
                assert(fs.subrange(0, k as int) =~= fs);
                assert(deref_feeds(r@) =~= feeds_of(gs@.subrange(0, i + 1)));
            }
            i = i + 1;
        }
        proof {
            assert(gs@.subrange(0, gs@.len() as int) =~= gs@);
        }
        r
    }

    /// Finds the first feed, group after group, whose kind is `kind`.
    pub fn find_feed(&self, kind: &str) -> (r: Option<&FeedConfig>)
        ensures
            match r {
                None => forall|k: int| 0 <= k < self.spec_all_feeds().len() ==> self.spec_all_feeds()[k].kind@ != kind@,
                Some(f) => exists|k: int| 0 <= k < self.spec_all_feeds().len() && self.spec_all_feeds()[k] == *f
                    && f.kind@ == kind@
                    && forall|j: int| 0 <= j < k ==> self.spec_all_feeds()[j].kind@ != kind@,
            },
    {
        let feeds = self.all_feeds();
        let mut i: usize = 0;
        while i < feeds.len()
            invariant
                0 <= i <= feeds.len(),
                deref_feeds(feeds@) == self.spec_all_feeds(),
                forall|j: int| 0 <= j < i ==> self.spec_all_feeds()[j].kind@ != kind@,
            decreases feeds.len() - i,
        {
            let f = feeds[i];
            proof {
                assert(self.spec_all_feeds()[i as int] == *f);
            }
            if same_text(f.kind.as_str(), kind) {
                return Some(f);
            }
            i = i + 1;
        }
        None
    }
}

/// How a message names where a problem was found.
pub open spec fn owner_text(o: IssueOwner) -> Seq<char> {
    match o {
        IssueOwner::InSet(n) => "set '"@ + n@ + "'"@,
        IssueOwner::InFeed(n) => "feed '"@ + n@ + "'"@,
    }
}

fn owner_message(o: &IssueOwner) -> (r: String)
    ensures
        r@ == owner_text(*o),
{
    match o {
        IssueOwner::InSet(n) => {
            let mut r = String::from_str("set '");
            r.append(n.as_str());
            r.append("'");
            r
        },
        IssueOwner::InFeed(n) => {
            let mut r = String::from_str("feed '");
            r.append(n.as_str());
            r.append("'");
            r
        },
    }
}

/// The message that describes a problem.
pub open spec fn issue_text(i: ConfigIssue) -> Seq<char> {
    match i {
        ConfigIssue::EmptyProtocol => "Medium protocol cannot be empty"@,
        ConfigIssue::EmptyParser => "Medium parser cannot be empty"@,
        ConfigIssue::EmptySetName => "Symbol set name cannot be empty"@,
        ConfigIssue::RingSizeNotPowerOfTwo { ring_size, owner } => "Ring size "@ + decimal(ring_size as nat) + " for "@ + owner_text(owner) + " must be a power of 2"@,
        ConfigIssue::NoSymbols { owner } => match owner {
            IssueOwner::InSet(n) => "Symbol set '"@ + n@ + "' must have at least one symbol"@,
            IssueOwner::InFeed(n) => "Feed '"@ + n@ + "' must have at least one symbol when not using sets"@,
        },
        ConfigIssue::EmptySymbol { owner } => match owner {
            IssueOwner::InSet(n) => "Symbol set '"@ + n@ + "' contains an empty symbol"@,
            IssueOwner::InFeed(n) => "Feed '"@ + n@ + "' contains an empty symbol"@,
        },
        ConfigIssue::DuplicateSymbol { symbol, owner } => "Duplicate symbol '"@ + symbol@ + "' in "@ + owner_text(owner),
        ConfigIssue::NoMedium { owner } => match owner {
            IssueOwner::InSet(n) => "Symbol set '"@ + n@ + "' must have at least one medium"@,
            IssueOwner::InFeed(n) => "Feed '"@ + n@ + "' must have at least one medium when not using sets"@,
        },
        ConfigIssue::DuplicateMedium { protocol, parser, owner } => "Duplicate medium '"@ + protocol@ + "/"@ + parser@ + "' in "@ + owner_text(owner),
        ConfigIssue::EmptyKind => "Feed kind cannot be empty"@,
        ConfigIssue::MixedLayout { feed } => "Feed '"@ + feed@ + "' cannot have both 'sets' and direct configuration (num_cpus/ring_size/symbols/medium)"@,
        ConfigIssue::DuplicateSetName { set, feed } => "Duplicate set name '"@ + set@ + "' in feed '"@ + feed@ + "'"@,
        ConfigIssue::DuplicateSymbolAcrossSets { symbol, feed } => "Duplicate symbol '"@ + symbol@ + "' across sets in feed '"@ + feed@ + "'"@,
        ConfigIssue::MissingNumCpus { feed } => "Feed '"@ + feed@ + "' must specify 'num_cpus' when not using sets"@,
        ConfigIssue::MissingRingSize { feed } => "Feed '"@ + feed@ + "' must specify 'ring_size' when not using sets"@,
        ConfigIssue::NoFeeds => "PubSub configuration must have at least one feed"@,
        ConfigIssue::DuplicateFeedKind { kind } => "Duplicate feed kind '"@ + kind@ + "'"@,
        ConfigIssue::NoPubSubs => "Configuration must have at least one pub/sub configuration"@,
        ConfigIssue::DuplicateMainCpu => "Duplicate 'main_cpu' configuration"@,
        ConfigIssue::DuplicateWorkerCpus => "Duplicate 'worker_cpus' configuration"@,
        ConfigIssue::MissingMainCpu => "Missing 'main_cpu' configuration"@,
        ConfigIssue::MissingWorkerCpus => "Missing 'worker_cpus' configuration"@,
        ConfigIssue::InvalidCpuRangeFormat { text } => "Invalid worker_cpus format '"@ + text@ + "'. Expected format: 'start-end' (e.g., '1-12')"@,
        ConfigIssue::InvalidStartCpu { text } => "Invalid start CPU in worker_cpus '"@ + text@ + "'"@,
        ConfigIssue::InvalidEndCpu { text } => "Invalid end CPU in worker_cpus '"@ + text@ + "'"@,
        ConfigIssue::CpuRangeReversed { text, start, end } => "Invalid worker_cpus range '"@ + text@ + "': start ("@ + decimal(start as nat) + ") must be <= end ("@ + decimal(end as nat) + ")"@,
    }
}

impl ConfigIssue {
    /// A description of the problem.
    pub fn message(&self) -> (r: String)
        ensures
            r@ == issue_text(*self),
    {
        match self {
            ConfigIssue::EmptyProtocol => {
                String::from_str("Medium protocol cannot be empty")
            },
            ConfigIssue::EmptyParser => {
                String::from_str("Medium parser cannot be empty")
            },
            ConfigIssue::EmptySetName => {
                String::from_str("Symbol set name cannot be empty")
            },
            ConfigIssue::RingSizeNotPowerOfTwo { ring_size, owner } => {
                let mut r = String::from_str("Ring size ");
                r.append(decimal_text(*ring_size as u64).as_str());
                r.append(" for ");
                r.append(owner_message(owner).as_str());
                r.append(" must be a power of 2");
                r
            },
            ConfigIssue::NoSymbols { owner } => match owner {
                IssueOwner::InSet(n) => {
                    let mut r = String::from_str("Symbol set '");
                    r.append(n.as_str());
                    r.append("' must have at least one symbol");
                    r
                },
                IssueOwner::InFeed(n) => {
                    let mut r = String::from_str("Feed '");
                    r.append(n.as_str());
                    r.append("' must have at least one symbol when not using sets");
                    r
                },
            },
            ConfigIssue::EmptySymbol { owner } => match owner {
                IssueOwner::InSet(n) => {
                    let mut r = String::from_str("Symbol set '");
                    r.append(n.as_str());
                    r.append("' contains an empty symbol");
                    r
                },
                IssueOwner::InFeed(n) => {
                    let mut r = String::from_str("Feed '");
                    r.append(n.as_str());
                    r.append("' contains an empty symbol");
                    r
                },
            },
            ConfigIssue::DuplicateSymbol { symbol, owner } => {
                let mut r = String::from_str("Duplicate symbol '");
                r.append(symbol.as_str());
                r.append("' in ");
                r.append(owner_message(owner).as_str());
                r
            },
            ConfigIssue::NoMedium { owner } => match owner {
                IssueOwner::InSet(n) => {
                    let mut r = String::from_str("Symbol set '");
                    r.append(n.as_str());
                    r.append("' must have at least one medium");
                    r
                },
                IssueOwner::InFeed(n) => {
                    let mut r = String::from_str("Feed '");
                    r.append(n.as_str());
                    r.append("' must have at least one medium when not using sets");
                    r
                },
            },
            ConfigIssue::DuplicateMedium { protocol, parser, owner } => {
                let mut r = String::from_str("Duplicate medium '");
                r.append(protocol.as_str());
                r.append("/");
                r.append(parser.as_str());
                r.append("' in ");
                r.append(owner_message(owner).as_str());
                r
            },
            ConfigIssue::EmptyKind => {
                String::from_str("Feed kind cannot be empty")
            },
            ConfigIssue::MixedLayout { feed } => {
                let mut r = String::from_str("Feed '");
                r.append(feed.as_str());
                r.append("' cannot have both 'sets' and direct configuration (num_cpus/ring_size/symbols/medium)");
                r
            },
            ConfigIssue::DuplicateSetName { set, feed } => {
                let mut r = String::from_str("Duplicate set name '");
                r.append(set.as_str());
                r.append("' in feed '");
                r.append(feed.as_str());
                r.append("'");
                r
            },
            ConfigIssue::DuplicateSymbolAcrossSets { symbol, feed } => {
                let mut r = String::from_str("Duplicate symbol '");
                r.append(symbol.as_str());
                r.append("' across sets in feed '");
                r.append(feed.as_str());
                r.append("'");
                r
            },
            ConfigIssue::MissingNumCpus { feed } => {
                let mut r = String::from_str("Feed '");
                r.append(feed.as_str());
                r.append("' must specify 'num_cpus' when not using sets");
                r
            },
            ConfigIssue::MissingRingSize { feed } => {
                let mut r = String::from_str("Feed '");
                r.append(feed.as_str());
                r.append("' must specify 'ring_size' when not using sets");
                r
            },
            ConfigIssue::NoFeeds => {
                String::from_str("PubSub configuration must have at least one feed")
            },
            ConfigIssue::DuplicateFeedKind { kind } => {
                let mut r = String::from_str("Duplicate feed kind '");
                r.append(kind.as_str());
                r.append("'");
                r
            },
            ConfigIssue::NoPubSubs => {
                String::from_str("Configuration must have at least one pub/sub configuration")
            },
            ConfigIssue::DuplicateMainCpu => {
                String::from_str("Duplicate 'main_cpu' configuration")
            },
            ConfigIssue::DuplicateWorkerCpus => {
                String::from_str("Duplicate 'worker_cpus' configuration")
            },
            ConfigIssue::MissingMainCpu => {
                String::from_str("Missing 'main_cpu' configuration")
            },
            ConfigIssue::MissingWorkerCpus => {
                String::from_str("Missing 'worker_cpus' configuration")
            },
            ConfigIssue::InvalidCpuRangeFormat { text } => {
                let mut r = String::from_str("Invalid worker_cpus format '");
                r.append(text.as_str());
                r.append("'. Expected format: 'start-end' (e.g., '1-12')");
                r
            },
            ConfigIssue::InvalidStartCpu { text } => {
                let mut r = String::from_str("Invalid start CPU in worker_cpus '");
                r.append(text.as_str());
                r.append("'");
                r
            },
            ConfigIssue::InvalidEndCpu { text } => {
                let mut r = String::from_str("Invalid end CPU in worker_cpus '");
                r.append(text.as_str());
                r.append("'");
                r
            },
            ConfigIssue::CpuRangeReversed { text, start, end } => {
                let mut r = String::from_str("Invalid worker_cpus range '");
                r.append(text.as_str());
                r.append("': start (");
                r.append(decimal_text(*start as u64).as_str());
                r.append(") must be <= end (");
                r.append(decimal_text(*end as u64).as_str());
                r.append(")");
                r
            },
        }
    }
}

impl HwResourcesConfigError {
    pub open spec fn spec_message(self) -> Seq<char> {
        match self {
            HwResourcesConfigError::ValidationError(i) => "Configuration validation error: "@ + issue_text(i),
        }
    }

    /// A description of the error.
    pub fn message(&self) -> (r: String)
        ensures
            r@ == self.spec_message(),
    {
        match self {
            HwResourcesConfigError::ValidationError(i) => {
                let mut r = String::from_str("Configuration validation error: ");
                r.append(i.message().as_str());
                r
            },
        }
    }
}

/// The symbols of all feeds, as a set.
pub open spec fn symbol_union(fs: Seq<FeedConfig>) -> Set<Seq<char>>
    decreases fs.len(),
{
    if fs.len() == 0 {
        Set::empty()
    } else {
        symbol_union(fs.drop_last()).union(views(fs.last().spec_all_symbols()).to_set())
    }
}

impl HwResourcesConfig {
    /// Every symbol of every feed, each once.
    pub fn all_symbols(&self) -> (r: Vec<String>)
        ensures
            views(r@).no_duplicates(),
            views(r@).to_set() == symbol_union(self.spec_all_feeds()),
    {
        let feeds = self.all_feeds();
        let mut seen = crate::names::NameSet::new();
        let mut r: Vec<String> = Vec::new();
        let mut i: usize = 0;
        proof {
            assert(views(r@).to_set() =~= Set::<Seq<char>>::empty());
            assert(self.spec_all_feeds().subrange(0, 0) =~= Seq::<FeedConfig>::empty());
        }
        while i < feeds.len()
            invariant
                0 <= i <= feeds.len(),
                deref_feeds(feeds@) == self.spec_all_feeds(),
                views(r@).no_duplicates(),
                seen.contents() == views(r@).to_set(),
                views(r@).to_set() == symbol_union(self.spec_all_feeds().subrange(0, i as int)),
            decreases feeds.len() - i,
        {
            let syms = feeds[i].all_symbols();
            proof {
                assert(*feeds@[i as int] == self.spec_all_feeds()[i as int]);
            }
            let ghost before = views(r@).to_set();
            let mut j: usize = 0;
            proof {
                assert(views(syms@).subrange(0, 0).to_set() =~= Set::<Seq<char>>::empty());
                assert(before.union(Set::<Seq<char>>::empty()) =~= before);
            }
            while j < syms.len()
                invariant
                    0 <= j <= syms.len(),
                    views(r@).no_duplicates(),
                    seen.contents() == views(r@).to_set(),
                    views(r@).to_set() == before.union(views(syms@).subrange(0, j as int).to_set()),
                decreases syms.len() - j,
            {
                let ghost prev = views(r@);
                let ghost x = syms@[j as int]@;
                let fresh = seen.insert(syms[j].as_str());
                if fresh {
                    r.push(syms[j].clone());
                    proof {
                        assert(views(r@) =~= prev.push(x));
                        prev.lemma_push_to_set_commute(x);
                        assert forall|a: int, b: int| 0 <= a < b < views(r@).len() implies views(r@)[a] != views(r@)[b] by {
                            if b == prev.len() {
                                assert(prev.contains(prev[a]));
                            }
                        }
                    }
                }
                proof {
                    assert(views(syms@).subrange(0, j + 1) =~= views(syms@).subrange(0, j as int).push(x));
                    views(syms@).subrange(0, j as int).lemma_push_to_set_commute(x);
                    assert(views(r@).to_set() =~= before.union(views(syms@).subrange(0, j + 1).to_set()));
                }
                j = j + 1;
            }
            proof {
                assert(views(syms@).subrange(0, j as int) =~= views(syms@));
                assert(self.spec_all_feeds().subrange(0, i + 1).drop_last() =~= self.spec_all_feeds().subrange(0, i as int));
            }
            i = i + 1;
        }
        proof {
            assert(self.spec_all_feeds().subrange(0, i as int) =~= self.spec_all_feeds());
        }
        r
    }
}

/// The first problem among mediums is always about an empty protocol or
/// parser.
proof fn lemma_medium_issue_kind(ms: Seq<Medium>)
    ensures
        first_issue(medium_issues(ms)) is None || first_issue(medium_issues(ms)) == Some(ConfigIssue::EmptyProtocol)
            || first_issue(medium_issues(ms)) == Some(ConfigIssue::EmptyParser),
    decreases ms.len(),
{
    if ms.len() > 0 {
        assert(medium_issues(ms).drop_first() =~= medium_issues(ms.drop_first()));
        lemma_medium_issue_kind(ms.drop_first());
    }
}

/// A set with a name is refused for its ring size exactly when that size is
/// not a power of two, which is also exactly when `PubSubRing::create`
/// refuses it as a capacity.
pub proof fn lemma_set_ring_size_rule(set: SymbolSet)
    requires
        set.name@.len() > 0,
    ensures
        !is_power_of_two(set.ring_size as int) <==> set.issue() == Some(
            ConfigIssue::RingSizeNotPowerOfTwo { ring_size: set.ring_size, owner: IssueOwner::InSet(set.name) },
        ),
        !is_power_of_two(set.ring_size as int) ==> outcome(set.issue()) is Err,
{
    lemma_medium_issue_kind(set.medium@);
}

/// A directly configured feed with a kind, a CPU count and a ring size is
/// refused for its ring size exactly when that size is not a power of two.
pub proof fn lemma_feed_ring_size_rule(feed: FeedConfig)
    requires
        feed.kind@.len() > 0,
        feed.sets@.len() == 0,
        feed.num_cpus is Some,
        feed.ring_size is Some,
    ensures
        !is_power_of_two(feed.ring_size->0 as int) <==> feed.issue() == Some(
            ConfigIssue::RingSizeNotPowerOfTwo { ring_size: feed.ring_size->0, owner: IssueOwner::InFeed(feed.kind) },
        ),
        !is_power_of_two(feed.ring_size->0 as int) ==> outcome(feed.issue()) is Err,
{
    lemma_medium_issue_kind(feed.medium@);
}

} // verus!
