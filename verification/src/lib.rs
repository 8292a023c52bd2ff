//! A verified model of a benchmark suite for a transport-protocol library.
//!
//! A suite is a sequence of [`benchmark::Benchmark`] values, each naming a
//! handshake or transfer workload together with the parameters it runs under.
//! Before any benchmark is executed the suite passes through
//! [`validation::validate_benchmarks`], the sole integrity gate: it rejects a
//! suite in which two benchmarks share a name. After a run, measured
//! instruction counts are looked up by the benchmark's bare name
//! ([`results`]).

use vstd::prelude::*;

pub mod benchmark;
pub mod results;
pub mod validation;

verus! {

/// The peer a measurement or report concerns: the client or the server half
/// of a connection.
#[derive(Clone, Copy, PartialEq, Eq, Structural, Debug)]
pub enum Side {
    /// The connection's initiating peer.
    Client,
    /// The connection's accepting peer.
    Server,
}

impl Side {
    /// The characters of the side's stable label.
    pub open spec fn label_spec(self) -> Seq<char> {
        match self {
            Side::Client => seq!['c', 'l', 'i', 'e', 'n', 't'],
            Side::Server => seq!['s', 'e', 'r', 'v', 'e', 'r'],
        }
    }

    /// The side's stable, user-facing tag, used when composing side-qualified
    /// benchmark names.
    pub fn as_str(&self) -> (r: &'static str)
        ensures
            r@ == self.label_spec(),
    {
        match self {
            Side::Client => {
                proof {
                    reveal_strlit("client");
                    assert("client"@ =~= Side::Client.label_spec());
                }
                "client"
            },
            Side::Server => {
                proof {
                    reveal_strlit("server");
                    assert("server"@ =~= Side::Server.label_spec());
                }
                "server"
            },
        }
    }
}

/// The two sides' labels never coincide, so a side-qualified name determines
/// its side.
pub proof fn lemma_side_labels_distinct()
    ensures
        Side::Client.label_spec() != Side::Server.label_spec(),
{
    assert(Side::Client.label_spec()[0] == 'c');
    assert(Side::Server.label_spec()[0] == 's');
}

} // verus!
