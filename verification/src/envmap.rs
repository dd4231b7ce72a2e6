//! A service's environment: a mutable mapping from variable names to
//! values, the orchestrator's sole mutation target.

use vstd::prelude::*;

verus! {

/// The mapping the entry sequence `s` denotes: entries are applied in
/// order, so a later entry for the same name wins.
pub open spec fn env_map_of(s: Seq<(String, String)>) -> Map<Seq<char>, Seq<char>>
    decreases s.len(),
{
    if s.len() == 0 {
        Map::empty()
    } else {
        env_map_of(s.drop_last()).insert(s.last().0@, s.last().1@)
    }
}

/// A mapping from environment-variable names to values.
pub struct EnvMap {
    entries: Vec<(String, String)>,
}

impl View for EnvMap {
    type V = Map<Seq<char>, Seq<char>>;

    closed spec fn view(&self) -> Map<Seq<char>, Seq<char>> {
        env_map_of(self.entries@)
    }
}

/// An entry whose name no later entry repeats gives the mapping's value
/// for that name.
proof fn lemma_env_map_of_match(s: Seq<(String, String)>, k: Seq<char>, i: int)
    requires
        0 <= i < s.len(),
        s[i].0@ == k,
        forall|j: int| i < j < s.len() ==> s[j].0@ != k,
    ensures
        env_map_of(s).contains_key(k),
        env_map_of(s)[k] == s[i].1@,
    decreases s.len(),
{
    if i < s.len() - 1 {
        lemma_env_map_of_match(s.drop_last(), k, i);
    }
}

/// A name no entry carries is not in the mapping.
proof fn lemma_env_map_of_no_match(s: Seq<(String, String)>, k: Seq<char>)
    requires
        forall|j: int| 0 <= j < s.len() ==> s[j].0@ != k,
    ensures
        !env_map_of(s).contains_key(k),
    decreases s.len(),
{
    if s.len() > 0 {
        lemma_env_map_of_no_match(s.drop_last(), k);
    }
}

impl EnvMap {
    /// An empty environment.
    pub fn new() -> (r: EnvMap)
        ensures
            r@ == Map::<Seq<char>, Seq<char>>::empty(),
    {
        EnvMap { entries: Vec::new() }
    }

    /// Inserts a value under a name, overwriting any value the name had.
    pub fn insert(&mut self, key: String, value: String)
        ensures
            final(self)@ == old(self)@.insert(key@, value@),
    {
        let ghost s0 = self.entries@;
        let ghost k = key@;
        let ghost v = value@;
        self.entries.push((key, value));
        proof {
            assert(self.entries@.drop_last() =~= s0);
        }
    }

    /// Looks a name up.
    pub fn get(&self, key: &str) -> (r: Option<&String>)
        ensures
            match r {
                Some(v) => self@.contains_key(key@) && v@ == self@[key@],
                None => !self@.contains_key(key@),
            },
    {
        let ghost s = self.entries@;
        let mut i: usize = self.entries.len();
        while i > 0
            invariant
                s == self.entries@,
                0 <= i <= s.len(),
                forall|j: int| i <= j < s.len() ==> s[j].0@ != key@,
            decreases i,
        {
            i = i - 1;
            if crate::strutil::str_eq(self.entries[i].0.as_str(), key) {
                proof {
                    lemma_env_map_of_match(s, key@, i as int);
                }
                return Some(&self.entries[i].1);
            }
        }
        proof {
            lemma_env_map_of_no_match(s, key@);
        }
        None
    }

    /// Whether the environment holds a value under this name.
    pub fn contains(&self, key: &str) -> (r: bool)
        ensures
            r == self@.contains_key(key@),
    {
        self.get(key).is_some()
    }
}

} // verus!
