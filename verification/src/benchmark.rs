//! The benchmark data model: resumption strategies, workload kinds,
//! parameters, and the named [`Benchmark`] aggregate.

use crate::Side;
use crate::results::{InstructionCounts, ResultStore};
use crate::validation::{
    distinct_names, duplicates_in_order, is_repeated, lemma_duplicates_distinct,
    lemma_duplicates_empty_iff_distinct, lemma_duplicates_membership, ValidationError,
};
use vstd::pervasive::unreached;
use vstd::prelude::*;
use vstd::string::StringExecFns;

verus! {

/// The kind of session resumption used during a handshake.
#[derive(PartialEq, Eq, Structural, Clone, Copy, Debug)]
pub enum ResumptionKind {
    /// No resumption.
    No,
    /// Resumption through a session ID.
    SessionId,
    /// Resumption through session tickets.
    Tickets,
}

impl ResumptionKind {
    /// Every resumption kind, each exactly once, in the fixed order used
    /// wherever the full set is enumerated.
    pub const ALL: [ResumptionKind; 3] = [
        ResumptionKind::No,
        ResumptionKind::SessionId,
        ResumptionKind::Tickets,
    ];

    /// The characters of the kind's label.
    pub open spec fn label_spec(self) -> Seq<char> {
        match self {
            ResumptionKind::No => seq!['n', 'o', '_', 'r', 'e', 's', 'u', 'm', 'e'],
            ResumptionKind::SessionId => seq!['s', 'e', 's', 's', 'i', 'o', 'n', '_', 'i', 'd'],
            ResumptionKind::Tickets => seq!['t', 'i', 'c', 'k', 'e', 't', 's'],
        }
    }

    /// Returns a user-facing label that identifies the resumption kind.
    ///
    /// Labels are stable: they may be persisted in historical result data and
    /// never change once assigned.
    pub fn label(&self) -> (r: &'static str)
        ensures
            r@ == self.label_spec(),
    {
        match *self {
            ResumptionKind::No => {
                proof {
                    reveal_strlit("no_resume");
                    assert("no_resume"@ =~= ResumptionKind::No.label_spec());
                }
                "no_resume"
            },
            ResumptionKind::SessionId => {
                proof {
                    reveal_strlit("session_id");
                    assert("session_id"@ =~= ResumptionKind::SessionId.label_spec());
                }
                "session_id"
            },
            ResumptionKind::Tickets => {
                proof {
                    reveal_strlit("tickets");
                    assert("tickets"@ =~= ResumptionKind::Tickets.label_spec());
                }
                "tickets"
            },
        }
    }
}

/// `ALL` enumerates the three resumption kinds, each exactly once, in the
/// fixed order; the labels of distinct kinds are distinct and never empty.
pub proof fn lemma_resumption_kind_all()
    ensures
        ResumptionKind::ALL@ =~= seq![
            ResumptionKind::No,
            ResumptionKind::SessionId,
            ResumptionKind::Tickets,
        ],
        forall|k1: ResumptionKind, k2: ResumptionKind|
            k1 != k2 ==> k1.label_spec() != k2.label_spec(),
        forall|k: ResumptionKind| #[trigger] k.label_spec().len() > 0,
{
    assert(ResumptionKind::No.label_spec().len() == 9);
    assert(ResumptionKind::SessionId.label_spec().len() == 10);
    assert(ResumptionKind::Tickets.label_spec().len() == 7);
    assert forall|k1: ResumptionKind, k2: ResumptionKind| k1 != k2 implies k1.label_spec()
        != k2.label_spec() by {
        assert(k1.label_spec().len() != k2.label_spec().len());
    }
}

/// Which functionality a benchmark measures.
#[derive(PartialEq, Eq, Structural, Clone, Copy, Debug)]
pub enum BenchmarkKind {
    /// Perform the handshake, with the carried resumption strategy, and exit.
    Handshake(ResumptionKind),
    /// Perform the handshake and then transfer a fixed amount of data.
    Transfer,
}

impl BenchmarkKind {
    /// The resumption strategy the kind's handshake phase effectively uses:
    /// a handshake benchmark uses the strategy it carries, and a transfer
    /// benchmark always performs a non-resumed handshake.
    pub open spec fn resumption_kind_spec(self) -> ResumptionKind {
        match self {
            BenchmarkKind::Handshake(kind) => kind,
            BenchmarkKind::Transfer => ResumptionKind::No,
        }
    }

    /// Returns the [`ResumptionKind`] used in the handshake part of the
    /// benchmark.
    pub fn resumption_kind(self) -> (r: ResumptionKind)
        ensures
            r == self.resumption_kind_spec(),
    {
        match self {
            BenchmarkKind::Handshake(kind) => kind,
            BenchmarkKind::Transfer => ResumptionKind::No,
        }
    }
}

/// Where the server's authentication key material comes from.
///
/// `Key` is the identifier of a concrete key type; it is a handle supplied
/// by the library under test and is opaque to this model beyond identity.
#[derive(Clone, Debug)]
pub enum AuthKeySource<Key> {
    /// Key material of the identified concrete key type.
    KeyType(Key),
    /// Key material produced by the synthetic fuzzing provider.
    FuzzingProvider,
}

/// The parameters a benchmark runs under.
///
/// The cryptographic capabilities — the crypto provider, the factory that
/// produces a session-ticket issuer, the cipher suite, and the protocol
/// version — are handles supplied by the library under test; this model
/// carries them through untouched, so they stand as type parameters. A
/// params value is never edited once built: benchmarks that share a
/// configuration duplicate it.
#[derive(Clone, Debug)]
pub struct BenchmarkParams<Provider, Ticketer, Suite, Version, Key> {
    /// The crypto provider under test.
    pub provider: Provider,
    /// How to make a session-ticket issuer.
    pub ticketer: Ticketer,
    /// Where to get keys for server authentication.
    pub auth_key: AuthKeySource<Key>,
    /// The cipher suite under test.
    pub ciphersuite: Suite,
    /// The protocol version under test.
    pub version: Version,
    /// A user-facing label that identifies these params.
    pub label: String,
}

impl<Provider, Ticketer, Suite, Version, Key> BenchmarkParams<
    Provider,
    Ticketer,
    Suite,
    Version,
    Key,
> {
    /// Create a new set of benchmark params.
    ///
    /// No cross-field consistency is checked here: picking a matching
    /// provider, suite and version is the suite builder's responsibility.
    pub fn new(
        provider: Provider,
        ticketer: Ticketer,
        auth_key: AuthKeySource<Key>,
        ciphersuite: Suite,
        version: Version,
        label: String,
    ) -> (r: Self)
        ensures
            r == (BenchmarkParams { provider, ticketer, auth_key, ciphersuite, version, label }),
    {
        Self { provider, ticketer, auth_key, ciphersuite, version, label }
    }
}

/// A benchmark specification: a unique name, the workload kind, and the
/// parameters to run it under.
pub struct Benchmark<Provider, Ticketer, Suite, Version, Key> {
    /// The name of the benchmark, as shown in the benchmark results. Fixed
    /// at construction; uniqueness across a suite is a collection-level
    /// property checked by [`validate_benchmarks`].
    name: String,
    /// The benchmark kind.
    pub kind: BenchmarkKind,
    /// The benchmark's parameters.
    pub params: BenchmarkParams<Provider, Ticketer, Suite, Version, Key>,
}

impl<Provider, Ticketer, Suite, Version, Key> Benchmark<Provider, Ticketer, Suite, Version, Key> {
    /// The characters of the benchmark's name.
    pub closed spec fn name_spec(self) -> Seq<char> {
        self.name@
    }

    /// The benchmark's kind, for use in contracts.
    pub closed spec fn kind_spec(self) -> BenchmarkKind {
        self.kind
    }

    /// The benchmark's parameters, for use in contracts.
    pub closed spec fn params_spec(self) -> BenchmarkParams<
        Provider,
        Ticketer,
        Suite,
        Version,
        Key,
    > {
        self.params
    }

    /// The characters of the benchmark's name with a side's label appended
    /// after an underscore.
    pub open spec fn name_with_side_spec(self, side: Side) -> Seq<char> {
        self.name_spec() + seq!['_'] + side.label_spec()
    }

    /// Create a new benchmark. Always succeeds: the name's format and
    /// uniqueness are not checked here.
    pub fn new(
        name: String,
        kind: BenchmarkKind,
        params: BenchmarkParams<Provider, Ticketer, Suite, Version, Key>,
    ) -> (r: Self)
        ensures
            r.name_spec() == name@,
            r.kind_spec() == kind,
            r.params_spec() == params,
    {
        Self { name, kind, params }
    }

    /// Returns the benchmark's unique name.
    pub fn name(&self) -> (r: &str)
        ensures
            r@ == self.name_spec(),
    {
        self.name.as_str()
    }

    /// Returns the benchmark's unique name with the side appended to it.
    pub fn name_with_side(&self, side: Side) -> (r: String)
        ensures
            r@ == self.name_with_side_spec(side),
    {
        let mut r = self.name.clone();
        r.append("_");
        r.append(side.as_str());
        proof {
            reveal_strlit("_");
            assert("_"@ =~= seq!['_']);
            assert(r@ =~= self.name_with_side_spec(side));
        }
        r
    }
}

/// Qualifying one name with the two sides gives two distinct strings, both
/// extending the bare name by an underscore.
pub proof fn lemma_name_with_side_distinct<Provider, Ticketer, Suite, Version, Key>(
    b: Benchmark<Provider, Ticketer, Suite, Version, Key>,
)
    ensures
        b.name_with_side_spec(Side::Client) != b.name_with_side_spec(Side::Server),
        b.name_with_side_spec(Side::Client).subrange(0, b.name_spec().len() as int + 1)
            == b.name_spec() + seq!['_'],
        b.name_with_side_spec(Side::Server).subrange(0, b.name_spec().len() as int + 1)
            == b.name_spec() + seq!['_'],
{
    let n = b.name_spec().len() as int;
    let cq = b.name_with_side_spec(Side::Client);
    let sq = b.name_with_side_spec(Side::Server);
    assert(cq[n + 1] == 'c');
    assert(sq[n + 1] == 's');
    assert(cq.subrange(0, n + 1) =~= b.name_spec() + seq!['_']);
    assert(sq.subrange(0, n + 1) =~= b.name_spec() + seq!['_']);
}

/// The names of a suite's benchmarks, in suite order.
pub open spec fn benchmark_names<Provider, Ticketer, Suite, Version, Key>(
    bs: Seq<Benchmark<Provider, Ticketer, Suite, Version, Key>>,
) -> Seq<Seq<char>> {
    bs.map_values(|b: Benchmark<Provider, Ticketer, Suite, Version, Key>| b.name_spec())
}

/// Validates a benchmark collection, returning an error if the provided
/// benchmarks are invalid.
///
/// Benchmarks can be invalid because of the following reasons:
///
/// - Re-using an already defined benchmark name.
///
/// Success is returned exactly when the names are pairwise distinct; the
/// error otherwise lists every name defined more than once, each exactly
/// once, in the order the scan first detects a repetition.
pub fn validate_benchmarks<Provider, Ticketer, Suite, Version, Key>(
    benchmarks: &[Benchmark<Provider, Ticketer, Suite, Version, Key>],
) -> (r: Result<(), ValidationError>)
    ensures
        r is Ok <==> distinct_names(benchmark_names(benchmarks@)),
        r is Err ==> r->Err_0.duplicate_names.deep_view() == duplicates_in_order(
            benchmark_names(benchmarks@),
        ),
        r is Err ==> forall|n: Seq<char>|
            r->Err_0.duplicate_names.deep_view().contains(n) <==> #[trigger] is_repeated(
                benchmark_names(benchmarks@),
                n,
            ),
        r is Err ==> distinct_names(r->Err_0.duplicate_names.deep_view()),
        r is Err ==> r->Err_0.duplicate_names.deep_view().len() > 0,
{
    let ghost all_names = benchmark_names(benchmarks@);
    let mut duplicate_names: Vec<String> = Vec::new();
    let n = benchmarks.len();
    let mut i: usize = 0;
    while i < n
        invariant
            i <= n,
            n == benchmarks@.len(),
            all_names == benchmark_names(benchmarks@),
            all_names.len() == n,
            forall|k: int| 0 <= k < n ==> all_names[k] == benchmarks@[k].name_spec(),
            duplicate_names.deep_view() == duplicates_in_order(all_names.take(i as int)),
        decreases n - i,
    {
        let ghost prev = duplicate_names.deep_view();
        let mut seen_before = false;
        let mut j: usize = 0;
        while j < i
            invariant
                j <= i,
                i < n,
                n == benchmarks@.len(),
                all_names.len() == n,
                forall|k: int| 0 <= k < n ==> all_names[k] == benchmarks@[k].name_spec(),
                seen_before <==> exists|k: int|
                    0 <= k < j && all_names[k] == all_names[i as int],
            decreases i - j,
        {
            let same = benchmarks[j].name == benchmarks[i].name;
            if same {
                seen_before = true;
            }
            proof {
                if same {
                    assert(all_names[j as int] == all_names[i as int]);
                    assert(exists|k: int|
                        0 <= k < j as int + 1 && all_names[k] == all_names[i as int]);
                }
            }
            j += 1;
        }
        proof {
            assert(all_names.take(i as int).contains(all_names[i as int]) <==> seen_before) by {
                if seen_before {
                    let k = choose|k: int| 0 <= k < i && all_names[k] == all_names[i as int];
                    assert(all_names.take(i as int)[k] == all_names[i as int]);
                }
                if all_names.take(i as int).contains(all_names[i as int]) {
                    let k = choose|k: int|
                        0 <= k < all_names.take(i as int).len() && all_names.take(i as int)[k]
                            == all_names[i as int];
                    assert(all_names[k] == all_names[i as int]);
                }
            }
        }
        if seen_before {
            let mut already = false;
            let dlen = duplicate_names.len();
            let mut t: usize = 0;
            while t < dlen
                invariant
                    t <= dlen,
                    i < n,
                    n == benchmarks@.len(),
                    all_names.len() == n,
                    forall|k: int| 0 <= k < n ==> all_names[k] == benchmarks@[k].name_spec(),
                    dlen == duplicate_names@.len(),
                    already <==> exists|k: int|
                        0 <= k < t && duplicate_names@[k]@ == all_names[i as int],
                decreases dlen - t,
            {
                let same = duplicate_names[t] == benchmarks[i].name;
                if same {
                    already = true;
                }
                proof {
                    if same {
                        assert(duplicate_names@[t as int]@ == all_names[i as int]);
                        assert(exists|k: int|
                            0 <= k < t as int + 1 && duplicate_names@[k]@
                                == all_names[i as int]);
                    }
                }
                t += 1;
            }
            proof {
                assert(prev.contains(all_names[i as int]) <==> already) by {
                    if already {
                        let k = choose|k: int|
                            0 <= k < duplicate_names@.len() && duplicate_names@[k]@
                                == all_names[i as int];
                        assert(prev[k] == all_names[i as int]);
                    }
                    if prev.contains(all_names[i as int]) {
                        let k = choose|k: int|
                            0 <= k < prev.len() && prev[k] == all_names[i as int];
                        assert(duplicate_names@[k]@ == all_names[i as int]);
                    }
                }
            }
            if !already {
                duplicate_names.push(benchmarks[i].name.clone());
                proof {
                    assert(duplicate_names.deep_view() =~= prev.push(all_names[i as int]));
                }
            }
        }
        proof {
            assert(all_names.take(i as int + 1).drop_last() =~= all_names.take(i as int));
            assert(all_names.take(i as int + 1).last() == all_names[i as int]);
            assert(duplicate_names.deep_view() == duplicates_in_order(
                all_names.take(i as int + 1),
            ));
        }
        i += 1;
    }
    proof {
        assert(all_names.take(n as int) =~= all_names);
    }
    if duplicate_names.len() == 0 {
        proof {
            lemma_duplicates_empty_iff_distinct(all_names);
            assert(duplicate_names.deep_view().len() == 0);
        }
        Ok(())
    } else {
        proof {
            lemma_duplicates_empty_iff_distinct(all_names);
            lemma_duplicates_membership(all_names);
            lemma_duplicates_distinct(all_names);
        }
        Err(ValidationError { duplicate_names })
    }
}

/// Get the reported instruction counts for the provided benchmark.
///
/// A validated benchmark whose name the store has no entry for signals that
/// the execution engine is out of sync with the validated suite; that is an
/// integration fault, not an input, so the precondition demands an entry.
pub fn get_reported_instr_count<Provider, Ticketer, Suite, Version, Key>(
    bench: &Benchmark<Provider, Ticketer, Suite, Version, Key>,
    results: &ResultStore,
) -> (r: InstructionCounts)
    requires
        results@.contains_key(bench.name_spec()),
    ensures
        r == results@[bench.name_spec()],
{
    match results.get(&bench.name) {
        Some(counts) => counts,
        None => unreached(),
    }
}

} // verus!
