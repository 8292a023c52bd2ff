//! Recorded measurements, keyed by benchmark name.
//!
//! After a validated suite has run, the execution engine hands back one
//! measurement per benchmark. [`ResultStore`] holds them; viewed as a map
//! from name to measurement, where a later insertion under the same name
//! supersedes an earlier one.

use vstd::prelude::*;

verus! {

/// The instruction counts measured for one benchmark run.
#[derive(PartialEq, Eq, Structural, Clone, Copy, Debug)]
pub struct InstructionCounts {
    /// Instructions retired by the client side.
    pub client: u64,
    /// Instructions retired by the server side.
    pub server: u64,
}

/// The map an entry sequence denotes: each entry inserted in order, so the
/// last entry under a name wins.
spec fn entries_map(s: Seq<(String, InstructionCounts)>) -> Map<Seq<char>, InstructionCounts>
    decreases s.len(),
{
    if s.len() == 0 {
        Map::empty()
    } else {
        entries_map(s.drop_last()).insert(s.last().0@, s.last().1)
    }
}

/// An entry whose name nothing after it repeats gives the map's value under
/// that name.
proof fn lemma_entries_map_found(s: Seq<(String, InstructionCounts)>, name: Seq<char>, i: int)
    requires
        0 <= i < s.len(),
        s[i].0@ == name,
        forall|k: int| i < k < s.len() ==> s[k].0@ != name,
    ensures
        entries_map(s).contains_key(name),
        entries_map(s)[name] == s[i].1,
    decreases s.len(),
{
    if i < s.len() - 1 {
        lemma_entries_map_found(s.drop_last(), name, i);
    }
}

/// A name no entry carries is not a key of the map.
proof fn lemma_entries_map_absent(s: Seq<(String, InstructionCounts)>, name: Seq<char>)
    requires
        forall|k: int| 0 <= k < s.len() ==> s[k].0@ != name,
    ensures
        !entries_map(s).contains_key(name),
    decreases s.len(),
{
    if s.len() > 0 {
        lemma_entries_map_absent(s.drop_last(), name);
    }
}

/// Measurements recorded for a benchmark run, looked up by the benchmark's
/// bare name.
pub struct ResultStore {
    entries: Vec<(String, InstructionCounts)>,
}

impl View for ResultStore {
    type V = Map<Seq<char>, InstructionCounts>;

    closed spec fn view(&self) -> Map<Seq<char>, InstructionCounts> {
        entries_map(self.entries@)
    }
}

impl ResultStore {
    /// An empty store: no benchmark has a recorded measurement yet.
    pub fn new() -> (r: Self)
        ensures
            r@ == Map::<Seq<char>, InstructionCounts>::empty(),
    {
        ResultStore { entries: Vec::new() }
    }

    /// Records the measurement for `name`, superseding any earlier one.
    pub fn insert(&mut self, name: String, counts: InstructionCounts)
        ensures
            final(self)@ == old(self)@.insert(name@, counts),
    {
        self.entries.push((name, counts));
        proof {
            assert(self.entries@.drop_last() =~= old(self).entries@);
        }
    }

    /// The measurement recorded under `name`, if any.
    pub fn get(&self, name: &String) -> (r: Option<InstructionCounts>)
        ensures
            match r {
                Some(counts) => self@.contains_key(name@) && counts == self@[name@],
                None => !self@.contains_key(name@),
            },
    {
        let mut i: usize = self.entries.len();
        while i > 0
            invariant
                i <= self.entries@.len(),
                forall|k: int| i <= k < self.entries@.len() ==> self.entries@[k].0@ != name@,
            decreases i,
        {
            i = i - 1;
            let entry = &self.entries[i];
            if entry.0 == *name {
                proof {
                    lemma_entries_map_found(self.entries@, name@, i as int);
                }
                return Some(entry.1);
            }
        }
        proof {
            lemma_entries_map_absent(self.entries@, name@);
        }
        None
    }
}

} // verus!
