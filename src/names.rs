//! Sets of names, held in a hash set, and the facts about sequences of names
//! that duplicate detection relies on.

use vstd::prelude::*;

verus! {

/// A set of names backed by `hashbrown::HashSet<String>`.
#[verifier::external_body]
pub struct NameSet {
    inner: hashbrown::HashSet<String>,
}

/// The names a `NameSet` holds.
pub uninterp spec fn name_set_contents(s: NameSet) -> Set<Seq<char>>;

impl NameSet {
    pub open spec fn contents(self) -> Set<Seq<char>> {
        name_set_contents(self)
    }

    /// Relies on `hashbrown::HashSet::new`: the new set is empty.
    #[verifier::external_body]
    pub fn new() -> (r: NameSet)
        ensures
            name_set_contents(r) == Set::<Seq<char>>::empty(),
    {
        NameSet { inner: hashbrown::HashSet::new() }
    }

    /// Relies on `hashbrown::HashSet::insert`: the name is in the set
    /// afterwards, and `true` comes back exactly when it was not there before.
    #[verifier::external_body]
    pub fn insert(&mut self, name: &str) -> (r: bool)
        ensures
            r == !name_set_contents(*old(self)).contains(name@),
            name_set_contents(*final(self)) == name_set_contents(*old(self)).insert(name@),
    {
        self.inner.insert(name.to_string())
    }
}

/// The character sequences of a sequence of strings.
pub open spec fn views(v: Seq<String>) -> Seq<Seq<char>> {
    v.map_values(|x: String| x@)
}

/// No two of the first `n` entries are equal.
pub open spec fn distinct_prefix(s: Seq<Seq<char>>, n: int) -> bool {
    forall|i: int, j: int| 0 <= i < j < n ==> s[i] != s[j]
}

/// Position `j` holds the first entry that repeats an earlier one.
pub open spec fn is_first_repeat(s: Seq<Seq<char>>, j: int) -> bool {
    &&& 0 <= j < s.len()
    &&& distinct_prefix(s, j)
    &&& !distinct_prefix(s, j + 1)
}

/// The position of the first entry that repeats an earlier one, if any.
pub open spec fn first_repeat(s: Seq<Seq<char>>) -> Option<int> {
    if distinct_prefix(s, s.len() as int) {
        None
    } else {
        Some(choose|j: int| is_first_repeat(s, j))
    }
}

/// At most one position is the first repeat, and `first_repeat` finds it.
pub proof fn lemma_first_repeat_at(s: Seq<Seq<char>>, j: int)
    requires
        is_first_repeat(s, j),
    ensures
        first_repeat(s) == Some(j),
{
    assert(!distinct_prefix(s, s.len() as int));
    let k = choose|k: int| is_first_repeat(s, k);
    if k < j {
        assert(!distinct_prefix(s, k + 1));
        let (a, b) = choose|a: int, b: int| 0 <= a < b < k + 1 && s[a] == s[b];
        assert(0 <= a < b < j);
    } else if j < k {
        let (a, b) = choose|a: int, b: int| 0 <= a < b < j + 1 && s[a] == s[b];
        assert(0 <= a < b < k);
    }
}

/// Scans `names` in order and reports the position of the first name that
/// repeats an earlier one.
pub fn find_first_repeat(names: &Vec<String>) -> (r: Option<usize>)
    ensures
        match r {
            None => first_repeat(views(names@)) is None,
            Some(j) => first_repeat(views(names@)) == Some(j as int) && j < names@.len(),
        },
{
    let ghost s = views(names@);
    let mut seen = NameSet::new();
    let mut i: usize = 0;
    while i < names.len()
        invariant
            0 <= i <= names.len(),
            s == views(names@),
            distinct_prefix(s, i as int),
            seen.contents() == s.subrange(0, i as int).to_set(),
        decreases names.len() - i,
    {
        let fresh = seen.insert(names[i].as_str());
        if !fresh {
            proof {
                assert(s.subrange(0, i as int).contains(s[i as int]));
                let k = choose|k: int| 0 <= k < i && s.subrange(0, i as int)[k] == s[i as int];
                assert(s[k] == s[i as int]);
                assert(!distinct_prefix(s, i + 1));
                lemma_first_repeat_at(s, i as int);
            }
            return Some(i);
        }
        proof {
            assert(s.subrange(0, i + 1) == s.subrange(0, i as int).push(s[i as int]));
            s.subrange(0, i as int).lemma_push_to_set_commute(s[i as int]);
            assert forall|a: int, b: int| 0 <= a < b < i + 1 implies s[a] != s[b] by {
                if b == i {
                    assert(s.subrange(0, i as int)[a] == s[a]);
                    assert(s.subrange(0, i as int).contains(s[a]));
                }
            }
        }
        i = i + 1;
    }
    proof {
        assert(s.len() == names@.len());
    }
    None
}

} // verus!
