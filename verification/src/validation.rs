//! The suite integrity gate: no two benchmarks may share a name.
//!
//! The executable scan lives with [`crate::benchmark::validate_benchmarks`];
//! this module holds the name-level specification of duplicate detection,
//! the lemmas that relate it to pairwise distinctness, and the error a
//! rejected suite produces.

use vstd::prelude::*;
use vstd::string::StringExecFns;

verus! {

/// Holds when no two positions of `names` carry the same name.
pub open spec fn distinct_names(names: Seq<Seq<char>>) -> bool {
    forall|i: int, j: int| 0 <= i < j < names.len() ==> names[i] != names[j]
}

/// How many positions of `names` carry exactly `n`.
pub open spec fn count_matches(names: Seq<Seq<char>>, n: Seq<char>) -> nat
    decreases names.len(),
{
    if names.len() == 0 {
        0
    } else {
        count_matches(names.drop_last(), n) + if names.last() == n {
            1nat
        } else {
            0nat
        }
    }
}

/// Holds when `n` occurs more than once in `names`.
pub open spec fn is_repeated(names: Seq<Seq<char>>, n: Seq<char>) -> bool {
    count_matches(names, n) >= 2
}

/// The distinct names that occur more than once in `names`, each listed
/// exactly once, in the order in which a left-to-right scan first detects
/// the repetition (the order of each name's second occurrence).
pub open spec fn duplicates_in_order(names: Seq<Seq<char>>) -> Seq<Seq<char>>
    decreases names.len(),
{
    if names.len() == 0 {
        Seq::empty()
    } else {
        let prefix = duplicates_in_order(names.drop_last());
        if names.drop_last().contains(names.last()) && !prefix.contains(names.last()) {
            prefix.push(names.last())
        } else {
            prefix
        }
    }
}

/// A name occurs somewhere in `names` exactly when it matches at least one
/// position.
pub proof fn lemma_count_matches_contains(names: Seq<Seq<char>>, n: Seq<char>)
    ensures
        names.contains(n) <==> count_matches(names, n) >= 1,
    decreases names.len(),
{
    if names.len() > 0 {
        lemma_count_matches_contains(names.drop_last(), n);
        assert(names.contains(n) <==> names.drop_last().contains(n) || names.last() == n) by {
            if names.contains(n) {
                let i = choose|i: int| 0 <= i < names.len() && names[i] == n;
                if i < names.len() - 1 {
                    assert(names.drop_last()[i] == n);
                }
            }
            if names.drop_last().contains(n) {
                let i = choose|i: int|
                    0 <= i < names.drop_last().len() && names.drop_last()[i] == n;
                assert(names[i] == n);
            }
            if names.last() == n {
                assert(names[names.len() - 1] == n);
            }
        }
    }
}

/// A pushed sequence contains exactly the old elements and the pushed one.
proof fn lemma_push_contains(s: Seq<Seq<char>>, x: Seq<char>, n: Seq<char>)
    ensures
        s.push(x).contains(n) <==> s.contains(n) || n == x,
{
    if s.push(x).contains(n) {
        let i = choose|i: int| 0 <= i < s.push(x).len() && s.push(x)[i] == n;
        if i < s.len() {
            assert(s[i] == n);
        }
    }
    if s.contains(n) {
        let i = choose|i: int| 0 <= i < s.len() && s[i] == n;
        assert(s.push(x)[i] == n);
    }
    assert(s.push(x)[s.len() as int] == x);
}

/// The scan's output contains exactly the names that are repeated in its
/// input.
pub proof fn lemma_duplicates_membership(names: Seq<Seq<char>>)
    ensures
        forall|n: Seq<char>|
            duplicates_in_order(names).contains(n) <==> #[trigger] is_repeated(names, n),
    decreases names.len(),
{
    if names.len() == 0 {
        assert forall|n: Seq<char>| !(#[trigger] is_repeated(names, n)) by {
            assert(count_matches(names, n) == 0);
        }
        assert(duplicates_in_order(names).len() == 0);
    } else {
        let inner = names.drop_last();
        let last = names.last();
        let prefix = duplicates_in_order(inner);
        lemma_duplicates_membership(inner);
        assert forall|n: Seq<char>|
            duplicates_in_order(names).contains(n) <==> #[trigger] is_repeated(names, n) by {
            lemma_count_matches_contains(inner, n);
            assert(prefix.contains(n) <==> is_repeated(inner, n));
            if n == last {
                assert(count_matches(names, n) == count_matches(inner, n) + 1);
            } else {
                assert(count_matches(names, n) == count_matches(inner, n));
            }
            if inner.contains(last) && !prefix.contains(last) {
                assert(duplicates_in_order(names) == prefix.push(last));
                lemma_push_contains(prefix, last, n);
                if n == last {
                    assert(duplicates_in_order(names).contains(n));
                    assert(count_matches(inner, n) >= 1);
                    assert(is_repeated(names, n));
                } else {
                    assert(duplicates_in_order(names).contains(n) <==> prefix.contains(n));
                }
            } else {
                assert(duplicates_in_order(names) == prefix);
                if n == last {
                    if !inner.contains(last) {
                        assert(count_matches(inner, n) == 0);
                        assert(!is_repeated(names, n));
                        assert(!prefix.contains(n));
                    } else {
                        assert(prefix.contains(last));
                        assert(is_repeated(inner, n));
                        assert(is_repeated(names, n));
                    }
                }
            }
        }
    }
}

/// The scan's output never lists a name twice.
pub proof fn lemma_duplicates_distinct(names: Seq<Seq<char>>)
    ensures
        distinct_names(duplicates_in_order(names)),
    decreases names.len(),
{
    if names.len() > 0 {
        let inner = names.drop_last();
        let last = names.last();
        let prefix = duplicates_in_order(inner);
        lemma_duplicates_distinct(inner);
        if inner.contains(last) && !prefix.contains(last) {
            let pushed = prefix.push(last);
            assert forall|i: int, j: int| 0 <= i < j < pushed.len() implies pushed[i]
                != pushed[j] by {
                if j == prefix.len() {
                    assert(pushed[i] == prefix[i]);
                    assert(prefix.contains(prefix[i]));
                }
            }
        }
    }
}

/// The scan finds nothing exactly when the names are pairwise distinct.
pub proof fn lemma_duplicates_empty_iff_distinct(names: Seq<Seq<char>>)
    ensures
        duplicates_in_order(names).len() == 0 <==> distinct_names(names),
    decreases names.len(),
{
    if names.len() > 0 {
        let inner = names.drop_last();
        let last = names.last();
        let prefix = duplicates_in_order(inner);
        lemma_duplicates_empty_iff_distinct(inner);
        assert(distinct_names(names) <==> distinct_names(inner) && !inner.contains(last)) by {
            if distinct_names(names) {
                assert forall|i: int, j: int| 0 <= i < j < inner.len() implies inner[i]
                    != inner[j] by {
                    assert(names[i] == inner[i]);
                    assert(names[j] == inner[j]);
                }
                assert forall|i: int| 0 <= i < inner.len() implies inner[i] != last by {
                    assert(names[i] == inner[i]);
                    assert(names[names.len() - 1] == last);
                }
            }
            if distinct_names(inner) && !inner.contains(last) {
                assert forall|i: int, j: int| 0 <= i < j < names.len() implies names[i]
                    != names[j] by {
                    if j < names.len() - 1 {
                        assert(names[i] == inner[i]);
                        assert(names[j] == inner[j]);
                    } else {
                        assert(names[i] == inner[i]);
                        assert(inner.contains(inner[i]));
                    }
                }
            }
        }
        if prefix.len() == 0 && !(inner.contains(last) && !prefix.contains(last)) {
            assert(!inner.contains(last));
        }
    }
}

/// The characters of the names joined with a comma and a space between each
/// adjacent pair.
pub open spec fn comma_join(names: Seq<Seq<char>>) -> Seq<char>
    decreases names.len(),
{
    if names.len() == 0 {
        Seq::empty()
    } else if names.len() == 1 {
        names[0]
    } else {
        comma_join(names.drop_last()) + seq![',', ' '] + names.last()
    }
}

/// The message a rejected suite reports: a fixed preamble followed by the
/// comma-joined duplicated names.
pub open spec fn duplicate_error_message(names: Seq<Seq<char>>) -> Seq<char> {
    "The following benchmarks are defined multiple times: "@ + comma_join(names)
}

/// The error produced when a benchmark suite defines a name more than once.
#[derive(Debug)]
pub struct ValidationError {
    /// Every name that more than one benchmark carries, each exactly once,
    /// in the order the duplicate scan first detected it.
    pub duplicate_names: Vec<String>,
}

impl ValidationError {
    /// Renders the error for the user, naming every duplicated benchmark.
    pub fn message(&self) -> (m: String)
        ensures
            m@ == duplicate_error_message(self.duplicate_names.deep_view()),
    {
        let mut m = String::from_str("The following benchmarks are defined multiple times: ");
        let mut i: usize = 0;
        let n = self.duplicate_names.len();
        while i < n
            invariant
                i <= n,
                n == self.duplicate_names.len(),
                m@ == "The following benchmarks are defined multiple times: "@ + comma_join(
                    self.duplicate_names.deep_view().take(i as int),
                ),
            decreases n - i,
        {
            let ghost joined = self.duplicate_names.deep_view();
            if i > 0 {
                m.append(", ");
                proof {
                    reveal_strlit(", ");
                    assert(", "@ =~= seq![',', ' ']);
                }
            }
            m.append(self.duplicate_names[i].as_str());
            proof {
                assert(joined.take(i + 1).drop_last() =~= joined.take(i as int));
                assert(joined.take(i + 1).last() == joined[i as int]);
                if i == 0 {
                    assert(comma_join(joined.take(1)) == joined[0]);
                    assert(m@ =~= "The following benchmarks are defined multiple times: "@
                        + comma_join(joined.take(1)));
                } else {
                    assert(comma_join(joined.take(i + 1)) == comma_join(joined.take(i as int))
                        + seq![',', ' '] + joined[i as int]);
                    assert(m@ =~= "The following benchmarks are defined multiple times: "@
                        + comma_join(joined.take(i + 1)));
                }
            }
            i += 1;
        }
        proof {
            assert(self.duplicate_names.deep_view().take(n as int) =~= self
                .duplicate_names
                .deep_view());
        }
        m
    }
}

} // verus!
