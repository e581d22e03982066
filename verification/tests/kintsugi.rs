use lau_kintsugi_runtime::{
    BreakType, Float64, KintsugiArtifact, KintsugiError, KintsugiLedger, KintsugiPolicy, KintsugiRepair,
};

fn fv(x: f64) -> Float64 {
    Float64::from_bits(x.to_bits())
}

fn val(f: Float64) -> f64 {
    f64::from_bits(f.to_bits())
}

fn add_f64(a: Float64, b: Float64) -> Float64 {
    fv(val(a) + val(b))
}

fn golden_total(a: &KintsugiArtifact) -> f64 {
    a.repairs.iter().map(|r| val(r.golden_value)).sum()
}

fn ledger_golden_total(l: &KintsugiLedger) -> f64 {
    l.artifacts().iter().map(golden_total).sum()
}

fn resilience(a: &KintsugiArtifact) -> f64 {
    if a.repairs.is_empty() {
        return 0.0;
    }
    let avg = golden_total(a) / a.repairs.len() as f64;
    (a.repair_count as f64).sqrt() * avg
}

fn make_break() -> BreakType {
    BreakType::TestFailure { test_name: "test_foo".into(), error: "assertion failed".into() }
}

fn make_repair(artifact_id: &str, golden_value: f64) -> KintsugiRepair {
    KintsugiRepair::new(
        &format!(
            "repair-{}",
            std::time::SystemTime::now().duration_since(std::time::UNIX_EPOCH).unwrap().as_nanos()
        ),
        artifact_id,
        make_break(),
        1000,
        2000,
        fv(golden_value),
        "fixed the thing",
        vec!["always check nulls".into()],
        "agent-1",
    )
}

// --- BreakType ---

#[test]
fn break_type_categories() {
    assert_eq!(BreakType::TestFailure { test_name: "t".into(), error: "e".into() }.category(), "TestFailure");
    assert_eq!(BreakType::BuildError { file: "f".into(), line: 1, error: "e".into() }.category(), "BuildError");
    assert_eq!(BreakType::RuntimePanic { message: "m".into(), backtrace: "bt".into() }.category(), "RuntimePanic");
    assert_eq!(
        BreakType::ConservationViolation { expected: fv(1.0), actual: fv(0.5) }.category(),
        "ConservationViolation"
    );
    assert_eq!(BreakType::Deadlock { thread: "t".into(), held_lock: "l".into() }.category(), "Deadlock");
    assert_eq!(BreakType::Timeout { operation: "op".into(), limit_ms: 100 }.category(), "Timeout");
    assert_eq!(
        BreakType::ModelError { provider: "p".into(), code: 429, message: "m".into() }.category(),
        "ModelError"
    );
    assert_eq!(BreakType::AgentCrash { agent_id: "a".into(), last_state: "s".into() }.category(), "AgentCrash");
    assert_eq!(
        BreakType::CircuitBreak { circuit_id: "c".into(), value: fv(1.0), threshold: fv(0.5) }.category(),
        "CircuitBreak"
    );
    assert_eq!(BreakType::Custom { category: "Weird".into(), message: "m".into() }.category(), "Weird");
}

#[test]
fn break_type_equality() {
    let a = BreakType::Timeout { operation: "op".into(), limit_ms: 100 };
    let b = BreakType::Timeout { operation: "op".into(), limit_ms: 100 };
    assert_eq!(a, b);
}

#[test]
fn break_type_inequality() {
    let a = BreakType::Timeout { operation: "op1".into(), limit_ms: 100 };
    let b = BreakType::Timeout { operation: "op2".into(), limit_ms: 100 };
    assert_ne!(a, b);
}

// --- KintsugiRepair ---

#[test]
fn repair_duration() {
    let r = make_repair("a1", 1.0);
    assert_eq!(r.duration(), 1000);
}

#[test]
fn repair_duration_zero() {
    let r = KintsugiRepair::new("r1", "a1", make_break(), 1000, 1000, fv(1.0), "desc", vec![], "agent");
    assert_eq!(r.duration(), 0);
}

#[test]
fn repair_duration_wrap_around() {
    let r = KintsugiRepair::new("r1", "a1", make_break(), 2000, 1000, fv(1.0), "desc", vec![], "agent");
    assert_eq!(r.duration(), 0);
}

#[test]
fn repair_new_constructor() {
    let r = KintsugiRepair::new("r1", "a1", make_break(), 100, 300, fv(5.0), "fixed", vec!["l1".into()], "bot");
    assert_eq!(r.id, "r1");
    assert_eq!(r.artifact_id, "a1");
    assert_eq!(r.break_time, 100);
    assert_eq!(r.repair_time, 300);
    assert!((val(r.golden_value) - 5.0).abs() < f64::EPSILON);
    assert_eq!(r.repair_description, "fixed");
    assert_eq!(r.lessons, vec!["l1"]);
    assert_eq!(r.repairer, "bot");
}

// --- KintsugiArtifact ---

#[test]
fn artifact_new_defaults() {
    let a = KintsugiArtifact::new("my-service", "microservice");
    assert_eq!(a.name, "my-service");
    assert_eq!(a.artifact_type, "microservice");
    assert!((val(a.original_value) - 1.0).abs() < f64::EPSILON);
    assert_eq!(a.break_count, 0);
    assert_eq!(a.repair_count, 0);
}

#[test]
fn artifact_break_and_repair() {
    let mut a = KintsugiArtifact::new("svc", "service").with_id("a1");
    let r = make_repair("a1", 0.5);
    a.break_and_repair(r, add_f64);
    assert_eq!(a.break_count, 1);
    assert_eq!(a.repair_count, 1);
    assert!((val(a.current_value) - 1.5).abs() < f64::EPSILON);
}

#[test]
fn artifact_multiple_repairs() {
    let mut a = KintsugiArtifact::new("svc", "service").with_id("a1").with_original_value(fv(10.0));
    a.break_and_repair(make_repair("a1", 2.0), add_f64);
    a.break_and_repair(make_repair("a1", 3.0), add_f64);
    assert_eq!(a.break_count, 2);
    assert!((val(a.current_value) - 15.0).abs() < f64::EPSILON);
    assert!((golden_total(&a) - 5.0).abs() < f64::EPSILON);
}

#[test]
fn artifact_is_more_valuable() {
    let mut a = KintsugiArtifact::new("svc", "service").with_original_value(fv(10.0));
    assert!(!a.is_more_valuable());
    a.break_and_repair(make_repair("a1", 5.0), add_f64);
    assert!(a.is_more_valuable());
}

#[test]
fn artifact_not_more_valuable_with_zero() {
    let mut a = KintsugiArtifact::new("svc", "service").with_original_value(fv(10.0));
    a.current_value = fv(10.0);
    assert!(!a.is_more_valuable());
}

#[test]
fn artifact_weakest_break() {
    let mut a = KintsugiArtifact::new("svc", "service").with_id("a1");
    let r1 = KintsugiRepair::new("r1", "a1", make_break(), 100, 200, fv(1.0), "d", vec![], "a");
    let r2 = KintsugiRepair::new("r2", "a1", make_break(), 100, 500, fv(1.0), "d", vec![], "a");
    a.break_and_repair(r1, add_f64);
    a.break_and_repair(r2, add_f64);
    let weakest = a.weakest_break().unwrap();
    assert_eq!(weakest.id, "r2");
}

#[test]
fn artifact_weakest_break_empty() {
    let a = KintsugiArtifact::new("svc", "service");
    assert!(a.weakest_break().is_none());
}

#[test]
fn artifact_weakest_break_same_duration() {
    let mut a = KintsugiArtifact::new("s", "t").with_id("a1");
    let r1 = KintsugiRepair::new("r1", "a1", make_break(), 100, 200, fv(1.0), "d", vec![], "a");
    let r2 = KintsugiRepair::new("r2", "a1", make_break(), 100, 200, fv(2.0), "d", vec![], "a");
    a.break_and_repair(r1, add_f64);
    a.break_and_repair(r2, add_f64);
    let w = a.weakest_break().unwrap();
    assert!(w.id == "r1" || w.id == "r2");
}

#[test]
fn artifact_strongest_repair() {
    let mut a = KintsugiArtifact::new("svc", "service").with_id("a1");
    let r1 = KintsugiRepair::new("r1", "a1", make_break(), 100, 200, fv(1.0), "d", vec![], "a");
    let r2 = KintsugiRepair::new("r2", "a1", make_break(), 100, 200, fv(5.0), "d", vec![], "a");
    a.break_and_repair(r1, add_f64);
    a.break_and_repair(r2, add_f64);
    let strongest = a.strongest_repair().unwrap();
    assert_eq!(strongest.id, "r2");
}

#[test]
fn artifact_strongest_repair_empty() {
    let a = KintsugiArtifact::new("svc", "service");
    assert!(a.strongest_repair().is_none());
}

#[test]
fn artifact_with_original_value() {
    let a = KintsugiArtifact::new("svc", "service").with_original_value(fv(42.0));
    assert!((val(a.original_value) - 42.0).abs() < f64::EPSILON);
    assert!((val(a.current_value) - 42.0).abs() < f64::EPSILON);
}

#[test]
fn artifact_builder_chain() {
    let a = KintsugiArtifact::new("x", "y").with_id("custom-id").with_original_value(fv(99.0));
    assert_eq!(a.id, "custom-id");
    assert!((val(a.original_value) - 99.0).abs() < f64::EPSILON);
    assert!((val(a.current_value) - 99.0).abs() < f64::EPSILON);
}

// --- KintsugiPolicy ---

#[test]
fn policy_defaults() {
    let p = KintsugiPolicy::default();
    assert!(p.auto_repair);
    assert!((val(p.golden_value_multiplier) - 1.1).abs() < f64::EPSILON);
    assert!(p.max_repairs_per_artifact.is_none());
    assert!((val(p.decay_rate)).abs() < f64::EPSILON);
    assert!((val(p.min_golden_value)).abs() < f64::EPSILON);
}

#[test]
fn policy_builder() {
    let p = KintsugiPolicy::new()
        .with_auto_repair(false)
        .with_multiplier(fv(2.0))
        .with_max_repairs(5)
        .with_decay_rate(fv(0.1))
        .with_min_golden_value(fv(0.5));
    assert!(!p.auto_repair);
    assert!((val(p.golden_value_multiplier) - 2.0).abs() < f64::EPSILON);
    assert_eq!(p.max_repairs_per_artifact, Some(5));
    assert!((val(p.decay_rate) - 0.1).abs() < f64::EPSILON);
    assert!((val(p.min_golden_value) - 0.5).abs() < f64::EPSILON);
}

#[test]
fn policy_within_limits() {
    let p = KintsugiPolicy::new().with_max_repairs(2);
    let a = KintsugiArtifact::new("svc", "service");
    assert!(p.is_within_limits(&a));
}

#[test]
fn policy_exceeds_limits() {
    let p = KintsugiPolicy::new().with_max_repairs(1);
    let mut a = KintsugiArtifact::new("svc", "service").with_id("a1");
    a.break_and_repair(make_repair("a1", 1.0), add_f64);
    a.break_and_repair(make_repair("a1", 1.0), add_f64);
    assert!(!p.is_within_limits(&a));
}

#[test]
fn policy_no_limit() {
    let p = KintsugiPolicy::new();
    let mut a = KintsugiArtifact::new("svc", "service").with_id("a1");
    for _ in 0..100 {
        a.break_and_repair(make_repair("a1", 1.0), add_f64);
    }
    assert!(p.is_within_limits(&a));
}

#[test]
fn policy_new_equals_default() {
    let n = KintsugiPolicy::new();
    let d = KintsugiPolicy::default();
    assert_eq!(n.auto_repair, d.auto_repair);
    assert!((val(n.golden_value_multiplier) - val(d.golden_value_multiplier)).abs() < f64::EPSILON);
    assert_eq!(n.max_repairs_per_artifact, d.max_repairs_per_artifact);
}

// --- KintsugiError ---

#[test]
fn error_display() {
    assert_eq!(KintsugiError::ArtifactNotFound("x".into()).text_message().unwrap(), "artifact not found: x");
    assert_eq!(KintsugiError::AlreadyRepaired("r1".into()).text_message().unwrap(), "already repaired: r1");
    let e = KintsugiError::NegativeValue(fv(-1.5));
    assert!(e.text_message().is_none());
    let payload = match &e {
        KintsugiError::NegativeValue(v) => val(*v),
        _ => unreachable!(),
    };
    assert_eq!(format!("{}{}", e.message_prefix(), payload), "negative value: -1.5");
}

#[test]
fn error_equality() {
    assert_eq!(KintsugiError::ArtifactNotFound("a".into()), KintsugiError::ArtifactNotFound("a".into()));
    assert_ne!(KintsugiError::ArtifactNotFound("a".into()), KintsugiError::ArtifactNotFound("b".into()));
}

// --- KintsugiLedger ---

#[test]
fn ledger_new_is_empty() {
    let l = KintsugiLedger::new();
    assert!(l.artifacts().is_empty());
    assert_eq!(l.total_breaks(), 0);
    assert_eq!(l.total_repairs(), 0);
}

#[test]
fn ledger_register_artifact() {
    let mut l = KintsugiLedger::new();
    let a = KintsugiArtifact::new("svc", "service").with_id("a1");
    l.register_artifact(a);
    assert!(l.contains_artifact("a1"));
}

#[test]
fn ledger_record_repair() {
    let mut l = KintsugiLedger::new();
    let a = KintsugiArtifact::new("svc", "service").with_id("a1");
    l.register_artifact(a);
    let r = make_repair("a1", 2.0);
    l.record_repair("a1", r, add_f64).unwrap();
    assert_eq!(l.total_breaks(), 1);
    assert_eq!(l.total_repairs(), 1);
    assert!((val(l.get_artifact("a1").unwrap().current_value) - 3.0).abs() < f64::EPSILON);
}

#[test]
fn ledger_record_repair_not_found() {
    let mut l = KintsugiLedger::new();
    let r = make_repair("ghost", 1.0);
    let err = l.record_repair("ghost", r, add_f64);
    assert!(matches!(err, Err(KintsugiError::ArtifactNotFound(_))));
}

#[test]
fn ledger_record_repair_negative_value() {
    let mut l = KintsugiLedger::new();
    l.register_artifact(KintsugiArtifact::new("svc", "service").with_id("a1"));
    let r = KintsugiRepair::new("r1", "a1", make_break(), 100, 200, fv(-1.0), "d", vec![], "a");
    let err = l.record_repair("a1", r, add_f64);
    assert!(matches!(err, Err(KintsugiError::NegativeValue(_))));
}

#[test]
fn ledger_most_broken() {
    let mut l = KintsugiLedger::new();
    let mut a1 = KintsugiArtifact::new("a", "service").with_id("a1");
    let mut a2 = KintsugiArtifact::new("b", "service").with_id("a2");
    for _ in 0..5 {
        a1.break_and_repair(make_repair("a1", 1.0), add_f64);
    }
    for _ in 0..2 {
        a2.break_and_repair(make_repair("a2", 1.0), add_f64);
    }
    l.register_artifact(a1);
    l.register_artifact(a2);
    let top = l.most_broken(1);
    assert_eq!(top.len(), 1);
    assert_eq!(top[0].id, "a1");
}

#[test]
fn ledger_most_valuable() {
    let mut l = KintsugiLedger::new();
    let mut a1 = KintsugiArtifact::new("a", "service").with_id("a1").with_original_value(fv(5.0));
    a1.current_value = fv(100.0);
    let mut a2 = KintsugiArtifact::new("b", "service").with_id("a2").with_original_value(fv(5.0));
    a2.current_value = fv(50.0);
    l.register_artifact(a1);
    l.register_artifact(a2);
    let top = l.most_valuable(1);
    assert_eq!(top[0].id, "a1");
}

#[test]
fn ledger_most_resilient() {
    let mut l = KintsugiLedger::new();
    let mut a1 = KintsugiArtifact::new("a", "service").with_id("a1");
    let mut a2 = KintsugiArtifact::new("b", "service").with_id("a2");
    for _ in 0..3 {
        a1.break_and_repair(make_repair("a1", 2.0), add_f64);
    }
    a2.break_and_repair(make_repair("a2", 0.5), add_f64);
    l.register_artifact(a1);
    l.register_artifact(a2);
    let scores: Vec<Float64> = l.artifacts().iter().map(|a| fv(resilience(a))).collect();
    let top = l.most_resilient(1, &scores);
    assert_eq!(top[0].id, "a1");
}

#[test]
fn ledger_break_type_distribution() {
    let mut l = KintsugiLedger::new();
    let mut a = KintsugiArtifact::new("svc", "service").with_id("a1");
    let r1 = KintsugiRepair::new(
        "r1", "a1", BreakType::TestFailure { test_name: "t".into(), error: "e".into() }, 100, 200, fv(1.0), "d",
        vec![], "a",
    );
    let r2 = KintsugiRepair::new(
        "r2", "a1", BreakType::Timeout { operation: "op".into(), limit_ms: 100 }, 100, 200, fv(1.0), "d", vec![],
        "a",
    );
    let r3 = KintsugiRepair::new(
        "r3", "a1", BreakType::TestFailure { test_name: "t2".into(), error: "e2".into() }, 100, 200, fv(1.0), "d",
        vec![], "a",
    );
    a.break_and_repair(r1, add_f64);
    a.break_and_repair(r2, add_f64);
    a.break_and_repair(r3, add_f64);
    l.register_artifact(a);
    let dist = l.break_type_distribution();
    assert_eq!(*dist.get("TestFailure").unwrap(), 2);
    assert_eq!(*dist.get("Timeout").unwrap(), 1);
}

#[test]
fn ledger_lessons_learned() {
    let mut l = KintsugiLedger::new();
    let mut a = KintsugiArtifact::new("svc", "service").with_id("a1");
    let r1 = KintsugiRepair::new("r1", "a1", make_break(), 100, 200, fv(1.0), "d", vec!["lesson 1".into()], "a");
    let r2 = KintsugiRepair::new(
        "r2", "a1", make_break(), 100, 200, fv(1.0), "d", vec!["lesson 2".into(), "lesson 3".into()], "a",
    );
    a.break_and_repair(r1, add_f64);
    a.break_and_repair(r2, add_f64);
    l.register_artifact(a);
    let lessons = l.lessons_learned();
    assert_eq!(lessons, vec!["lesson 1", "lesson 2", "lesson 3"]);
}

#[test]
fn ledger_most_broken_n_exceeds_count() {
    let mut l = KintsugiLedger::new();
    l.register_artifact(KintsugiArtifact::new("a", "s").with_id("a1"));
    let top = l.most_broken(10);
    assert_eq!(top.len(), 1);
}

#[test]
fn ledger_default() {
    let l = KintsugiLedger::default();
    assert!(l.artifacts().is_empty());
}

#[test]
fn ledger_lessons_empty() {
    let mut l = KintsugiLedger::new();
    l.register_artifact(KintsugiArtifact::new("svc", "s").with_id("a1"));
    assert!(l.lessons_learned().is_empty());
}

#[test]
fn ledger_break_distribution_empty() {
    let l = KintsugiLedger::new();
    assert!(l.break_type_distribution().is_empty());
}

#[test]
fn ledger_record_multiple_repairs_same_artifact() {
    let mut l = KintsugiLedger::new();
    l.register_artifact(KintsugiArtifact::new("s", "svc").with_id("a1"));
    for _ in 0..5 {
        l.record_repair("a1", make_repair("a1", 1.0), add_f64).unwrap();
    }
    assert_eq!(l.total_breaks(), 5);
    assert_eq!(l.total_repairs(), 5);
    let a = l.get_artifact("a1").unwrap();
    assert_eq!(a.repair_count, 5);
    assert!((val(a.current_value) - 6.0).abs() < f64::EPSILON);
}

#[test]
fn ledger_multiple_artifacts_lessons() {
    let mut l = KintsugiLedger::new();
    let mut a1 = KintsugiArtifact::new("a", "svc").with_id("a1");
    let mut a2 = KintsugiArtifact::new("b", "svc").with_id("a2");
    let r1 = KintsugiRepair::new("r1", "a1", make_break(), 100, 200, fv(1.0), "d", vec!["L1".into()], "a");
    let r2 = KintsugiRepair::new("r2", "a2", make_break(), 100, 200, fv(1.0), "d", vec!["L2".into()], "a");
    a1.break_and_repair(r1, add_f64);
    a2.break_and_repair(r2, add_f64);
    l.register_artifact(a1);
    l.register_artifact(a2);
    let mut lessons: Vec<_> = l.lessons_learned().into_iter().collect();
    lessons.sort();
    assert_eq!(lessons, vec!["L1", "L2"]);
}

#[test]
fn multiple_artifacts_ranking() {
    let mut l = KintsugiLedger::new();
    let ids = ["alpha", "beta", "gamma"];
    let values = [10.0, 50.0, 30.0];
    for (id, v) in ids.iter().zip(values.iter()) {
        let mut a = KintsugiArtifact::new(id, "service").with_id(id).with_original_value(fv(0.0));
        a.break_and_repair(make_repair(id, *v), add_f64);
        l.register_artifact(a);
    }
    let top = l.most_valuable(2);
    assert_eq!(top[0].id, "beta");
    assert_eq!(top[1].id, "gamma");
}

// --- Integration ---

#[test]
fn kintsugi_journey() {
    let mut ledger = KintsugiLedger::new();
    let artifact = KintsugiArtifact::new("auth-service", "microservice").with_id("auth").with_original_value(fv(100.0));
    ledger.register_artifact(artifact);

    let r1 = KintsugiRepair::new(
        "r1",
        "auth",
        BreakType::Timeout { operation: "db_query".into(), limit_ms: 5000 },
        1000,
        1200,
        fv(15.0),
        "added connection pooling",
        vec!["always pool connections".into()],
        "agent-resilience",
    );
    ledger.record_repair("auth", r1, add_f64).unwrap();

    let r2 = KintsugiRepair::new(
        "r2",
        "auth",
        BreakType::TestFailure { test_name: "test_login".into(), error: "race condition".into() },
        2000,
        2500,
        fv(25.0),
        "added mutex around login state",
        vec!["shared state needs synchronization".into()],
        "agent-resilience",
    );
    ledger.record_repair("auth", r2, add_f64).unwrap();

    let a = ledger.get_artifact("auth").unwrap();
    assert_eq!(a.break_count, 2);
    assert!(a.is_more_valuable());
    assert!((val(a.current_value) - 140.0).abs() < f64::EPSILON);
    assert!((golden_total(a) - 40.0).abs() < f64::EPSILON);
    assert_eq!(ledger_golden_total(&ledger), golden_total(a));
}

#[test]
fn all_break_types_in_ledger() {
    let mut l = KintsugiLedger::new();
    let mut a = KintsugiArtifact::new("mega", "system").with_id("mega").with_original_value(fv(0.0));
    let breaks = vec![
        BreakType::TestFailure { test_name: "t".into(), error: "e".into() },
        BreakType::BuildError { file: "f.rs".into(), line: 42, error: "e".into() },
        BreakType::RuntimePanic { message: "oom".into(), backtrace: "bt".into() },
        BreakType::ConservationViolation { expected: fv(1.0), actual: fv(0.5) },
        BreakType::Deadlock { thread: "t".into(), held_lock: "m".into() },
        BreakType::Timeout { operation: "op".into(), limit_ms: 100 },
        BreakType::ModelError { provider: "openai".into(), code: 429, message: "rate limited".into() },
        BreakType::AgentCrash { agent_id: "a1".into(), last_state: "running".into() },
        BreakType::CircuitBreak { circuit_id: "c1".into(), value: fv(10.0), threshold: fv(5.0) },
        BreakType::Custom { category: "Cosmic".into(), message: "solar flare".into() },
    ];
    for (i, bt) in breaks.into_iter().enumerate() {
        let r = KintsugiRepair::new(&format!("r{i}"), "mega", bt, 100, 200, fv(1.0), "d", vec![], "a");
        a.break_and_repair(r, add_f64);
    }
    l.register_artifact(a);
    let dist = l.break_type_distribution();
    assert_eq!(dist.len(), 10);
    assert_eq!(dist.values().iter().sum::<u64>(), 10);
}
