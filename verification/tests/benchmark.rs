use ci_bench::benchmark::{
    get_reported_instr_count, validate_benchmarks, AuthKeySource, Benchmark, BenchmarkKind,
    BenchmarkParams, ResumptionKind,
};
use ci_bench::results::{InstructionCounts, ResultStore};
use ci_bench::Side;

type PlainBenchmark = Benchmark<(), (), (), (), ()>;

fn plain_params() -> BenchmarkParams<(), (), (), (), ()> {
    BenchmarkParams::new(
        (),
        (),
        AuthKeySource::FuzzingProvider,
        (),
        (),
        "plain".to_string(),
    )
}

fn bench(name: &str, kind: BenchmarkKind) -> PlainBenchmark {
    Benchmark::new(name.to_string(), kind, plain_params())
}

fn handshake(name: &str) -> PlainBenchmark {
    bench(name, BenchmarkKind::Handshake(ResumptionKind::No))
}

#[test]
fn validate_empty_suite_succeeds() {
    let benchmarks: Vec<PlainBenchmark> = Vec::new();
    assert!(validate_benchmarks(&benchmarks).is_ok());
}

#[test]
fn validate_distinct_names_succeeds() {
    let benchmarks = vec![
        bench("hs_no_resume", BenchmarkKind::Handshake(ResumptionKind::No)),
        bench("hs_tickets", BenchmarkKind::Handshake(ResumptionKind::Tickets)),
        bench("transfer", BenchmarkKind::Transfer),
    ];
    assert!(validate_benchmarks(&benchmarks).is_ok());
}

#[test]
fn validate_repeated_name_fails_and_reports_it_once() {
    let benchmarks = vec![
        bench("hs_no_resume", BenchmarkKind::Handshake(ResumptionKind::No)),
        bench("hs_no_resume", BenchmarkKind::Handshake(ResumptionKind::Tickets)),
        bench("transfer", BenchmarkKind::Transfer),
    ];
    let err = validate_benchmarks(&benchmarks).unwrap_err();
    assert_eq!(err.duplicate_names, vec!["hs_no_resume".to_string()]);
    let message = err.message();
    assert_eq!(
        message,
        "The following benchmarks are defined multiple times: hs_no_resume"
    );
    assert_eq!(message.matches("hs_no_resume").count(), 1);
}

#[test]
fn validate_reports_each_repeated_name_once_in_detection_order() {
    let benchmarks = vec![
        handshake("a"),
        handshake("b"),
        handshake("b"),
        handshake("a"),
        handshake("a"),
        handshake("c"),
    ];
    let err = validate_benchmarks(&benchmarks).unwrap_err();
    assert_eq!(err.duplicate_names, vec!["b".to_string(), "a".to_string()]);
    assert_eq!(
        err.message(),
        "The following benchmarks are defined multiple times: b, a"
    );
}

#[test]
fn resumption_kind_derivation_is_total() {
    assert_eq!(
        BenchmarkKind::Transfer.resumption_kind(),
        ResumptionKind::No
    );
    for kind in ResumptionKind::ALL {
        assert_eq!(BenchmarkKind::Handshake(kind).resumption_kind(), kind);
    }
}

#[test]
fn all_resumption_kinds_fixed_order_and_distinct_labels() {
    assert_eq!(
        ResumptionKind::ALL,
        [
            ResumptionKind::No,
            ResumptionKind::SessionId,
            ResumptionKind::Tickets
        ]
    );
    let labels: Vec<&str> = ResumptionKind::ALL.iter().map(|k| k.label()).collect();
    assert_eq!(labels, vec!["no_resume", "session_id", "tickets"]);
    for (i, a) in labels.iter().enumerate() {
        assert!(!a.is_empty());
        for b in labels.iter().skip(i + 1) {
            assert_ne!(a, b);
        }
    }
}

#[test]
fn name_with_side_prefixes_and_distinguishes() {
    let b = bench("foo", BenchmarkKind::Transfer);
    let client = b.name_with_side(Side::Client);
    let server = b.name_with_side(Side::Server);
    assert_eq!(client, "foo_client");
    assert_eq!(server, "foo_server");
    assert_ne!(client, server);
    assert!(client.starts_with("foo_"));
    assert!(server.starts_with("foo_"));
}

#[test]
fn transfer_benchmark_always_reports_no_resumption() {
    let b = bench("hs_tickets", BenchmarkKind::Transfer);
    assert_eq!(b.kind.resumption_kind(), ResumptionKind::No);
}

#[test]
fn benchmark_exposes_its_name() {
    let b = bench("transfer", BenchmarkKind::Transfer);
    assert_eq!(b.name(), "transfer");
}

#[test]
fn params_keep_their_fields() {
    let params = BenchmarkParams::new(
        7u32,
        "ticketer",
        AuthKeySource::KeyType("ecdsa"),
        "suite",
        "version",
        "label".to_string(),
    );
    assert_eq!(params.provider, 7);
    assert_eq!(params.ticketer, "ticketer");
    assert!(matches!(params.auth_key, AuthKeySource::KeyType("ecdsa")));
    assert_eq!(params.ciphersuite, "suite");
    assert_eq!(params.version, "version");
    assert_eq!(params.label, "label");
}

#[test]
fn result_store_returns_recorded_counts() {
    let mut store = ResultStore::new();
    store.insert(
        "transfer".to_string(),
        InstructionCounts {
            client: 11,
            server: 22,
        },
    );
    store.insert(
        "hs_no_resume".to_string(),
        InstructionCounts {
            client: 33,
            server: 44,
        },
    );
    let b = bench("transfer", BenchmarkKind::Transfer);
    let counts = get_reported_instr_count(&b, &store);
    assert_eq!(counts.client, 11);
    assert_eq!(counts.server, 22);
}

#[test]
fn result_store_get_is_none_for_unknown_name() {
    let mut store = ResultStore::new();
    store.insert(
        "transfer".to_string(),
        InstructionCounts {
            client: 1,
            server: 2,
        },
    );
    assert!(store.get(&"hs_no_resume".to_string()).is_none());
    assert!(ResultStore::new().get(&"transfer".to_string()).is_none());
}

#[test]
fn result_store_later_insert_supersedes_earlier() {
    let mut store = ResultStore::new();
    store.insert(
        "transfer".to_string(),
        InstructionCounts {
            client: 1,
            server: 2,
        },
    );
    store.insert(
        "transfer".to_string(),
        InstructionCounts {
            client: 3,
            server: 4,
        },
    );
    let counts = store.get(&"transfer".to_string()).unwrap();
    assert_eq!(counts.client, 3);
    assert_eq!(counts.server, 4);
}

#[test]
fn side_labels() {
    assert_eq!(Side::Client.as_str(), "client");
    assert_eq!(Side::Server.as_str(), "server");
}
