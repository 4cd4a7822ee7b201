use orchestra_core::evaluator::bounded_diagnostic;
use orchestra_core::evaluator::canonical_json;
use orchestra_core::evaluator::Evaluator;
use orchestra_core::evaluator::canonical_sha256;
use orchestra_core::evaluator::check_value_shape;
use orchestra_core::json::JsonValue;
use orchestra_core::automation_profile::automation_source_sha256;
use orchestra_core::evaluator::check_validation_request;
use orchestra_core::evaluator::check_worker_outcome;
use orchestra_core::evaluator::classify_worker_exit;
use orchestra_core::evaluator::EvaluatorFailure;
use orchestra_core::evaluator::EvaluatorLimits;
use orchestra_core::evaluator::EvaluatorProvenance;
use orchestra_core::evaluator::ValidationIssue;
use orchestra_core::evaluator::ValidationOutcome;

#[test]
fn rejects_bundle_provenance_before_spawning() {
    let limits = EvaluatorLimits::default();
    let error = check_validation_request("({output:z.string()})", &"0".repeat(64), Ok(()), 4, &limits).unwrap_err();
    assert_eq!(error.kind, EvaluatorFailure::ProvenanceMismatch);
}

#[test]
fn request_checks_come_in_order() {
    let source = "({output:z.string()})";
    let hash = automation_source_sha256(source);
    let mut limits = EvaluatorLimits::default();
    assert!(check_validation_request(source, &hash, Ok(()), 4, &limits).is_ok());
    assert_eq!(check_validation_request(source, &hash, Ok(()), limits.canonical_value_bytes + 1, &limits).unwrap_err().kind, EvaluatorFailure::ValueTooLarge);
    limits.bundle_bytes = 3;
    let error = check_validation_request(source, "x", Ok(()), 4, &limits).unwrap_err();
    assert_eq!(error.kind, EvaluatorFailure::BundleTooLarge);
    assert_eq!(error.message, "validation bundle exceeds byte limit");
}

#[test]
fn worker_exits_are_classified() {
    let limits = EvaluatorLimits::default();
    assert!(classify_worker_exit(10, true, Some(0), String::new(), &limits).is_ok());
    assert_eq!(classify_worker_exit(limits.response_bytes + 1, true, Some(0), String::new(), &limits).unwrap_err().kind, EvaluatorFailure::ResponseTooLarge);
    let crash = classify_worker_exit(0, false, None, String::new(), &limits).unwrap_err();
    assert_eq!(crash.kind, EvaluatorFailure::Crash);
    assert_eq!(crash.message, "validation worker failed without diagnostics");
    let failure = classify_worker_exit(0, false, Some(2), "boom".into(), &limits).unwrap_err();
    assert_eq!(failure.kind, EvaluatorFailure::WorkerFailure);
    assert_eq!(failure.message, "boom");
    assert_eq!(classify_worker_exit(0, true, Some(0), String::new(), &limits).unwrap_err().kind, EvaluatorFailure::Protocol);
}

fn provenance(hash: &str) -> EvaluatorProvenance {
    EvaluatorProvenance { bundle_hash: hash.into(), evaluator_revision: "evaluator-v1".into() }
}

#[test]
fn worker_outcomes_are_checked_against_the_request() {
    let limits = EvaluatorLimits::default();
    let accepted = ValidationOutcome::Accepted { provenance: provenance("h"), raw_canonical: "\"ok\"".into(), transformed_canonical: "\"ok\"".into() };
    assert!(check_worker_outcome(&accepted, "h", "evaluator-v1", "\"ok\"", &limits, Ok(())).is_ok());
    assert_eq!(check_worker_outcome(&accepted, "other", "evaluator-v1", "\"ok\"", &limits, Ok(())).unwrap_err().kind, EvaluatorFailure::ProvenanceMismatch);
    assert_eq!(check_worker_outcome(&accepted, "h", "evaluator-v1", "\"no\"", &limits, Ok(())).unwrap_err().kind, EvaluatorFailure::Nondeterministic);
    let issue = |m: &str| ValidationIssue { code: "c".into(), path: Vec::new(), message: m.into() };
    let rejected = ValidationOutcome::Rejected { provenance: provenance("h"), raw_canonical: "1".into(), issues: vec![issue("short"), issue(&"x".repeat(600))] };
    let error = check_worker_outcome(&rejected, "h", "evaluator-v1", "1", &limits, Ok(())).unwrap_err();
    assert_eq!(error.kind, EvaluatorFailure::Protocol);
    assert_eq!(error.message, "worker returned an oversized validation issue");
    let ordered = ValidationOutcome::Rejected { provenance: provenance("h"), raw_canonical: "1".into(), issues: vec![issue("a"), issue("b")] };
    assert!(check_worker_outcome(&ordered, "h", "evaluator-v1", "1", &limits, Ok(())).is_ok());
    let unordered = ValidationOutcome::Rejected { provenance: provenance("h"), raw_canonical: "1".into(), issues: vec![issue("b"), issue("a")] };
    assert_eq!(check_worker_outcome(&unordered, "h", "evaluator-v1", "1", &limits, Ok(())).unwrap_err().kind, EvaluatorFailure::Nondeterministic);
    let loose = ValidationOutcome::Accepted { provenance: provenance("h"), raw_canonical: "\"ok\"".into(), transformed_canonical: "{ \"b\": 1, \"a\": 2 }".into() };
    let error = check_worker_outcome(&loose, "h", "evaluator-v1", "\"ok\"", &limits, Ok(())).unwrap_err();
    assert_eq!(error.kind, EvaluatorFailure::Noncanonical);
    assert_eq!(error.message, "transformed value is not in canonical form");
}

#[test]
fn request_limit_is_enforced_before_spawning() {
    let source = "({output:z.string()})";
    let limits = EvaluatorLimits { request_bytes: 16, ..EvaluatorLimits::default() };
    let hash = automation_source_sha256(source);
    assert!(check_validation_request(source, &hash, Ok(()), 4, &limits).is_ok());
    let error = orchestra_core::evaluator::check_request_size(120, &limits).unwrap_err();
    assert_eq!(error.kind, EvaluatorFailure::RequestTooLarge);
}

#[test]
fn value_shapes_are_bounded_in_visiting_order() {
    let limits = EvaluatorLimits { value_depth: 1, string_bytes: 3, value_nodes: 4, ..EvaluatorLimits::default() };
    let flat = JsonValue::Array(vec![JsonValue::String("abc".into()), JsonValue::Null]);
    assert!(check_value_shape(&flat, &limits).is_ok());
    let deep = JsonValue::Array(vec![JsonValue::Array(vec![JsonValue::Null])]);
    assert_eq!(check_value_shape(&deep, &limits).unwrap_err().message, "canonical value exceeds depth limit");
    let long = JsonValue::Object(vec![("key".into(), JsonValue::String("abcd".into()))]);
    assert_eq!(check_value_shape(&long, &limits).unwrap_err().message, "canonical string exceeds byte limit");
    let wide_key = JsonValue::Object(vec![("keys".into(), JsonValue::Null)]);
    assert_eq!(check_value_shape(&wide_key, &limits).unwrap_err().message, "canonical object key exceeds byte limit");
    let many = JsonValue::Array(vec![JsonValue::Null, JsonValue::Null, JsonValue::Null, JsonValue::Null]);
    assert_eq!(check_value_shape(&many, &limits).unwrap_err().message, "canonical value exceeds node limit");
}

fn number(text: &str) -> JsonValue {
    JsonValue::Number(text.into())
}

#[test]
fn canonical_json_uses_jcs_number_and_key_rules() {
    let value = JsonValue::Object(vec![("z".into(), number("1.0")), ("a".into(), number("1e-7"))]);
    assert_eq!(canonical_json(&value).unwrap(), r#"{"a":1e-7,"z":1}"#);
}

#[test]
fn canonical_digest_hashes_the_canonical_text() {
    let loose = JsonValue::Object(vec![("b".into(), JsonValue::Bool(true)), ("a".into(), JsonValue::Null)]);
    let tight = JsonValue::Object(vec![("a".into(), JsonValue::Null), ("b".into(), JsonValue::Bool(true))]);
    assert_eq!(canonical_json(&loose).unwrap(), r#"{"a":null,"b":true}"#);
    let digest = canonical_sha256(&loose).unwrap();
    assert_eq!(digest, canonical_sha256(&tight).unwrap());
    assert_eq!(digest, automation_source_sha256(r#"{"a":null,"b":true}"#));
    assert_eq!(digest.len(), 64);
    let error = canonical_json(&number("not-a-number")).unwrap_err();
    assert_eq!(error.kind, EvaluatorFailure::Noncanonical);
}

#[test]
fn evaluator_keeps_what_it_was_made_with() {
    let limits = EvaluatorLimits { issue_count: 3, ..EvaluatorLimits::default() };
    let evaluator = Evaluator::new("/opt/worker".into(), "evaluator-v1".into(), limits);
    assert_eq!(evaluator.executable(), "/opt/worker");
    assert_eq!(evaluator.evaluator_revision(), "evaluator-v1");
    assert_eq!(evaluator.limits().issue_count, 3);
}

#[test]
fn diagnostics_are_cut_decoded_and_trimmed() {
    assert_eq!(bounded_diagnostic(b"  boom \n", 512), "boom");
    assert_eq!(bounded_diagnostic(b"  boom went the worker", 6), "boom");
    assert_eq!(bounded_diagnostic(b"ok\xff", 512), "ok\u{fffd}");
    assert_eq!(bounded_diagnostic(b"", 512), "");
}
