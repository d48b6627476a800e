//! The symbol table: each traded symbol's name and numeric id, looked up
//! either way. Ring names are derived from it.

use vstd::prelude::*;

verus! {

/// Names to ids, backed by `hashbrown::HashMap<String, u32>`.
#[verifier::external_body]
pub struct NameIndex {
    inner: hashbrown::HashMap<String, u32>,
}

/// Ids to names, backed by `hashbrown::HashMap<u32, String>`.
#[verifier::external_body]
pub struct IdIndex {
    inner: hashbrown::HashMap<u32, String>,
}

/// What a `NameIndex` maps.
pub uninterp spec fn name_index_contents(i: NameIndex) -> Map<Seq<char>, u32>;

/// What an `IdIndex` maps.
pub uninterp spec fn id_index_contents(i: IdIndex) -> Map<u32, Seq<char>>;

/// The empty name table.
pub open spec fn no_names() -> Map<Seq<char>, u32> {
    Map::empty()
}

/// The empty id table.
pub open spec fn no_ids() -> Map<u32, Seq<char>> {
    Map::empty()
}

impl NameIndex {
    /// Relies on `hashbrown::HashMap::new`: the new map is empty.
    #[verifier::external_body]
    pub fn new() -> (r: NameIndex)
        ensures
            name_index_contents(r) == no_names(),
    {
        NameIndex { inner: hashbrown::HashMap::new() }
    }

    /// Relies on `hashbrown::HashMap::insert`: afterwards `name` maps to `id`.
    #[verifier::external_body]
    pub fn insert(&mut self, name: &str, id: u32)
        ensures
            name_index_contents(*final(self)) == name_index_contents(*old(self)).insert(name@, id),
    {
        self.inner.insert(name.to_string(), id);
    }

    /// Relies on `hashbrown::HashMap::get`: the id `name` maps to, if any.
    #[verifier::external_body]
    pub fn get(&self, name: &str) -> (r: Option<u32>)
        ensures
            r is Some <==> name_index_contents(*self).contains_key(name@),
            r is Some ==> r->0 == name_index_contents(*self)[name@],
    {
        self.inner.get(name).copied()
    }

    /// Relies on `hashbrown::HashMap::len`: the number of names.
    #[verifier::external_body]
    pub fn len(&self) -> (r: usize)
        ensures
            r == name_index_contents(*self).dom().len(),
    {
        self.inner.len()
    }

    /// Relies on `hashbrown::HashMap::iter`: every entry once, in the map's
    /// own order.
    #[verifier::external_body]
    pub fn entries(&self) -> (r: Vec<(String, u32)>)
        ensures
            r@.len() == name_index_contents(*self).dom().len(),
            forall|k: int| 0 <= k < r@.len() ==> name_index_contents(*self).contains_key(#[trigger] r@[k].0@)
                && name_index_contents(*self)[r@[k].0@] == r@[k].1,
            forall|a: int, b: int| 0 <= a < b < r@.len() ==> r@[a].0@ != r@[b].0@,
    {
        self.inner.iter().map(|(k, v)| (k.clone(), *v)).collect()
    }
}

impl IdIndex {
    /// Relies on `hashbrown::HashMap::new`: the new map is empty.
    #[verifier::external_body]
    pub fn new() -> (r: IdIndex)
        ensures
            id_index_contents(r) == no_ids(),
    {
        IdIndex { inner: hashbrown::HashMap::new() }
    }

    /// Relies on `hashbrown::HashMap::insert`: afterwards `id` maps to `name`.
    #[verifier::external_body]
    pub fn insert(&mut self, id: u32, name: &str)
        ensures
            id_index_contents(*final(self)) == id_index_contents(*old(self)).insert(id, name@),
    {
        self.inner.insert(id, name.to_string());
    }

    /// Relies on `hashbrown::HashMap::get`: the name `id` maps to, if any.
    #[verifier::external_body]
    pub fn get(&self, id: u32) -> (r: Option<String>)
        ensures
            r is Some <==> id_index_contents(*self).contains_key(id),
            r is Some ==> r->0@ == id_index_contents(*self)[id],
    {
        self.inner.get(&id).cloned()
    }
}

/// A symbol's name and id.
#[derive(Debug, Clone, PartialEq, Eq)]
pub struct SymbolInfo {
    pub name: String,
    pub id: u32,
}

/// Why a symbol table was refused.
#[derive(Debug, PartialEq, Eq)]
pub enum SymbolInfoConfigError {
    DuplicateId(u32),
    DuplicateName(String),
}

/// The symbol table, indexed both by name and by id.
pub struct SymbolInfoConfig {
    symbols_by_name: NameIndex,
    symbols_by_id: IdIndex,
}

/// Names and ids of a list of entries.
pub open spec fn entry_view(es: Seq<(String, u32)>) -> Seq<(Seq<char>, u32)> {
    es.map_values(|e: (String, u32)| (e.0@, e.1))
}

/// No two of the first `n` entries share a name or an id.
pub open spec fn distinct_entries(es: Seq<(Seq<char>, u32)>, n: int) -> bool {
    forall|a: int, b: int| 0 <= a < b < n ==> es[a].0 != es[b].0 && es[a].1 != es[b].1
}

/// Some entry before `k` has the id of entry `k`.
pub open spec fn id_seen(es: Seq<(Seq<char>, u32)>, k: int) -> bool {
    exists|j: int| 0 <= j < k && es[j].1 == es[k].1
}

/// Some entry before `k` has the name of entry `k`.
pub open spec fn name_seen(es: Seq<(Seq<char>, u32)>, k: int) -> bool {
    exists|j: int| 0 <= j < k && es[j].0 == es[k].0
}

/// The table that the first `n` entries give, name to id.
pub open spec fn names_map(es: Seq<(Seq<char>, u32)>, n: int) -> Map<Seq<char>, u32>
    decreases n,
{
    if n <= 0 {
        Map::empty()
    } else {
        names_map(es, n - 1).insert(es[n - 1].0, es[n - 1].1)
    }
}

/// The table that the first `n` entries give, id to name.
pub open spec fn ids_map(es: Seq<(Seq<char>, u32)>, n: int) -> Map<u32, Seq<char>>
    decreases n,
{
    if n <= 0 {
        Map::empty()
    } else {
        ids_map(es, n - 1).insert(es[n - 1].1, es[n - 1].0)
    }
}

proof fn lemma_maps_cover(es: Seq<(Seq<char>, u32)>, n: int)
    requires
        0 <= n <= es.len(),
    ensures
        forall|x: Seq<char>| names_map(es, n).contains_key(x) <==> exists|j: int| 0 <= j < n && es[j].0 == x,
        forall|x: u32| ids_map(es, n).contains_key(x) <==> exists|j: int| 0 <= j < n && es[j].1 == x,
    decreases n,
{
    if n > 0 {
        lemma_maps_cover(es, n - 1);
        assert forall|x: Seq<char>| names_map(es, n).contains_key(x) <==> exists|j: int| 0 <= j < n && es[j].0 == x by {
            if names_map(es, n).contains_key(x) && x != es[n - 1].0 {
                assert(names_map(es, n - 1).contains_key(x));
                let j = choose|j: int| 0 <= j < n - 1 && es[j].0 == x;
                assert(0 <= j < n && es[j].0 == x);
            }
            if exists|j: int| 0 <= j < n && es[j].0 == x {
                let j = choose|j: int| 0 <= j < n && es[j].0 == x;
                if j < n - 1 {
                    assert(names_map(es, n - 1).contains_key(x));
                }
            }
        }
        assert forall|x: u32| ids_map(es, n).contains_key(x) <==> exists|j: int| 0 <= j < n && es[j].1 == x by {
            if ids_map(es, n).contains_key(x) && x != es[n - 1].1 {
                assert(ids_map(es, n - 1).contains_key(x));
                let j = choose|j: int| 0 <= j < n - 1 && es[j].1 == x;
                assert(0 <= j < n && es[j].1 == x);
            }
            if exists|j: int| 0 <= j < n && es[j].1 == x {
                let j = choose|j: int| 0 <= j < n && es[j].1 == x;
                if j < n - 1 {
                    assert(ids_map(es, n - 1).contains_key(x));
                }
            }
        }
    }
}

impl SymbolInfoConfig {
    pub closed spec fn by_name(&self) -> Map<Seq<char>, u32> {
        name_index_contents(self.symbols_by_name)
    }

    pub closed spec fn by_id(&self) -> Map<u32, Seq<char>> {
        id_index_contents(self.symbols_by_id)
    }

    /// Builds the table from `(name, id)` entries, in order; the first entry
    /// that repeats an earlier id, or else an earlier name, is refused.
    pub fn from_entries(entries: Vec<(String, u32)>) -> (r: Result<SymbolInfoConfig, SymbolInfoConfigError>)
        ensures
            ({
                let es = entry_view(entries@);
                &&& r is Ok <==> distinct_entries(es, es.len() as int)
                &&& r is Ok ==> r->Ok_0.by_name() == names_map(es, es.len() as int)
                    && r->Ok_0.by_id() == ids_map(es, es.len() as int)
                &&& r is Err ==> exists|k: int| 0 <= k < es.len() && distinct_entries(es, k) && (id_seen(es, k)
                    || name_seen(es, k)) && match r->Err_0 {
                    SymbolInfoConfigError::DuplicateId(id) => id_seen(es, k) && id == es[k].1,
                    SymbolInfoConfigError::DuplicateName(name) => !id_seen(es, k) && name@ == es[k].0,
                }
            }),
    {
        let ghost es = entry_view(entries@);
        let mut by_name = NameIndex::new();
        let mut by_id = IdIndex::new();
        let mut i: usize = 0;
        while i < entries.len()
            invariant
                0 <= i <= entries.len(),
                es == entry_view(entries@),
                distinct_entries(es, i as int),
                name_index_contents(by_name) == names_map(es, i as int),
                id_index_contents(by_id) == ids_map(es, i as int),
            decreases entries.len() - i,
        {
            let name = entries[i].0.as_str();
            let id = entries[i].1;
            proof {
                lemma_maps_cover(es, i as int);
                assert(es[i as int] == (name@, id));
            }
            if by_id.get(id).is_some() {
                return Err(SymbolInfoConfigError::DuplicateId(id));
            }
            if by_name.get(name).is_some() {
                return Err(SymbolInfoConfigError::DuplicateName(entries[i].0.clone()));
            }
            by_name.insert(name, id);
            by_id.insert(id, name);
            proof {
                assert forall|a: int, b: int| 0 <= a < b < i + 1 implies es[a].0 != es[b].0 && es[a].1 != es[b].1 by {
                    if b == i {
                        assert(!names_map(es, i as int).contains_key(es[b].0));
                        assert(!ids_map(es, i as int).contains_key(es[b].1));
                    }
                }
            }
            i = i + 1;
        }
        Ok(SymbolInfoConfig { symbols_by_name: by_name, symbols_by_id: by_id })
    }

    /// The symbol of this name, if any.
    pub fn get_by_name(&self, name: &str) -> (r: Option<SymbolInfo>)
        ensures
            r is Some <==> self.by_name().contains_key(name@),
            r is Some ==> r->0.name@ == name@ && r->0.id == self.by_name()[name@],
    {
        match self.symbols_by_name.get(name) {
            None => None,
            Some(id) => Some(SymbolInfo { name: String::from_str(name), id }),
        }
    }

    /// The symbol of this id, if any.
    pub fn get_by_id(&self, id: u32) -> (r: Option<SymbolInfo>)
        ensures
            r is Some <==> self.by_id().contains_key(id),
            r is Some ==> r->0.id == id && r->0.name@ == self.by_id()[id],
    {
        match self.symbols_by_id.get(id) {
            None => None,
            Some(name) => Some(SymbolInfo { name, id }),
        }
    }

    /// The id of the symbol of this name, if any.
    pub fn symbol_id(&self, name: &str) -> (r: Option<u32>)
        ensures
            r is Some <==> self.by_name().contains_key(name@),
            r is Some ==> r->0 == self.by_name()[name@],
    {
        self.symbols_by_name.get(name)
    }

    /// Every symbol once, in no particular order.
    pub fn symbols(&self) -> (r: Vec<SymbolInfo>)
        ensures
            r@.len() == self.by_name().dom().len(),
            forall|k: int| 0 <= k < r@.len() ==> self.by_name().contains_key(#[trigger] r@[k].name@)
                && self.by_name()[r@[k].name@] == r@[k].id,
            forall|a: int, b: int| 0 <= a < b < r@.len() ==> r@[a].name@ != r@[b].name@,
    {
        let entries = self.symbols_by_name.entries();
        let mut r: Vec<SymbolInfo> = Vec::new();
        let mut i: usize = 0;
        while i < entries.len()
            invariant
                0 <= i <= entries.len(),
                r@.len() == i,
                forall|k: int| 0 <= k < entries@.len() ==> self.by_name().contains_key(#[trigger] entries@[k].0@)
                    && self.by_name()[entries@[k].0@] == entries@[k].1,
                forall|k: int| 0 <= k < i ==> (#[trigger] r@[k]).name@ == entries@[k].0@ && r@[k].id == entries@[k].1,
                forall|a: int, b: int| 0 <= a < b < entries@.len() ==> entries@[a].0@ != entries@[b].0@,
            decreases entries.len() - i,
        {
            let name = entries[i].0.clone();
            r.push(SymbolInfo { name, id: entries[i].1 });
            i = i + 1;
        }
        r
    }

    /// Number of symbols.
    pub fn len(&self) -> (r: usize)
        ensures
            r == self.by_name().dom().len(),
    {
        self.symbols_by_name.len()
    }

    /// Whether the table is empty.
    pub fn is_empty(&self) -> (r: bool)
        ensures
            r == (self.by_name().dom().len() == 0),
    {
        self.symbols_by_name.len() == 0
    }
}

} // verus!
