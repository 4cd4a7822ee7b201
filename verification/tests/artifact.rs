use orchestra_core::artifact::assemble_artifact;
use orchestra_core::artifact::seal_artifact;
use orchestra_core::artifact::ArtifactCompileError;
use orchestra_core::artifact::CompatibilityTuple;
use orchestra_core::artifact::CompileLimits;
use orchestra_core::artifact::CompileRequest;
use orchestra_core::artifact::CompiledWorkflow;
use orchestra_core::artifact::CustomCodec;
use orchestra_core::json::JsonValue;
use orchestra_core::plan::ExecutionPlan;

fn compatibility() -> CompatibilityTuple {
    CompatibilityTuple {
        product_release_id: "product-1".into(),
        agents_revision: "agents-1".into(),
        zod_revision: "zod-1".into(),
        evaluator_revision: "evaluator-1".into(),
        adapter_abi: "adapter-1".into(),
        canonicalizer: "rfc8785-jcs-v1".into(),
        issue_format: "issues-v1".into(),
        target: "aarch64-apple-darwin".into(),
        sandbox_identity: "local-coding-harness".into(),
    }
}

fn source(name: &str) -> String {
    format!("import {{ workflow }} from '@codex-orchestra/workflow'; export default workflow({{ name: '{name}', steps: [] }});")
}

fn request() -> CompileRequest {
    CompileRequest {
        entry: "main.workflow.ts".into(),
        modules: vec![("main.workflow.ts".into(), source("compile"))],
        validation_bundles: vec![("output".into(), "({ output: z.string().trim() })".into())],
        guidance_schemas: vec![("output".into(), JsonValue::Object(vec![("type".into(), JsonValue::String("string".into()))]))],
        custom_codecs: Vec::new(),
        compatibility: compatibility(),
        limits: CompileLimits::default(),
    }
}

fn plan(name: &str) -> ExecutionPlan {
    ExecutionPlan { name: name.into(), description: String::new(), inputs: Vec::new(), max_parallel: 4, steps: Vec::new() }
}

fn compile(request: CompileRequest, name: &str) -> Result<CompiledWorkflow, ArtifactCompileError> {
    seal_artifact(assemble_artifact(request, Ok(plan(name)))?)
}

#[test]
fn identical_closed_graph_and_tuple_have_identical_identity() {
    let first = compile(request(), "compile").unwrap();
    let second = compile(request(), "compile").unwrap();
    assert_eq!(first.artifact_sha256, second.artifact_sha256);
    assert!(first.verify_sources().is_ok());
    assert!(first.verify_bundles().is_ok());
    assert!(first.verify_artifact_sha256().is_ok());
    assert!(first.verify_plan(&plan("compile")).is_ok());
    assert!(matches!(first.verify_plan(&plan("other")), Err(ArtifactCompileError::PlanMismatch)));
    assert_eq!(first.artifact_sha256.len(), 64);
    assert_eq!(first.validation_bundles[0].sha256.len(), 64);
    assert_eq!(first.modules[0].bytes, source("compile").len());
}

#[test]
fn verification_rejects_modified_authoritative_source() {
    let mut artifact = compile(request(), "compile").unwrap();
    artifact.modules[0].source.push_str(" // changed");
    assert!(matches!(artifact.verify_sources(), Err(ArtifactCompileError::SourceIdentityMismatch(_))));
}

#[test]
fn source_or_tuple_change_changes_artifact_identity() {
    let first = compile(request(), "compile").unwrap();
    let mut changed_source = request();
    changed_source.modules[0].1 = source("changed");
    let second = compile(changed_source, "changed").unwrap();
    let mut changed_tuple = request();
    changed_tuple.compatibility.evaluator_revision = "evaluator-2".into();
    let third = compile(changed_tuple, "compile").unwrap();
    assert_ne!(first.artifact_sha256, second.artifact_sha256);
    assert_ne!(first.artifact_sha256, third.artifact_sha256);
    assert_ne!(first.modules[0].sha256, second.modules[0].sha256);
}

#[test]
fn rejects_unclosed_and_oversized_graphs_before_lowering() {
    let mut missing = request();
    missing.entry = "missing.workflow.ts".into();
    assert!(matches!(compile(missing, "x"), Err(ArtifactCompileError::MissingEntry(_))));

    let mut oversized = request();
    oversized.limits.module_source_bytes = 8;
    assert!(matches!(compile(oversized, "x"), Err(ArtifactCompileError::ModuleBytes { actual: _, limit: 8, .. })));
}

#[test]
fn artifact_checks_come_in_order() {
    let mut blank = request();
    blank.compatibility.zod_revision = "  ".into();
    blank.modules.clear();
    assert!(matches!(compile(blank, "x"), Err(ArtifactCompileError::EmptyCompatibility(name)) if name == "zodRevision"));
    let mut empty = request();
    empty.modules.clear();
    assert!(matches!(compile(empty, "x"), Err(ArtifactCompileError::EmptyGraph)));
    let mut total = request();
    total.limits.total_source_bytes = 10;
    assert!(matches!(compile(total, "x"), Err(ArtifactCompileError::TotalSourceBytes { limit: 10, .. })));
    let failed = assemble_artifact(request(), Err(orchestra_core::compiler::CompileError { offset: 3, message: "bad".into() }));
    assert!(matches!(failed, Err(ArtifactCompileError::Workflow(e)) if e.offset == 3));
    let mut bundle = request();
    bundle.limits.validation_bundle_bytes = 4;
    assert!(matches!(compile(bundle, "x"), Err(ArtifactCompileError::BundleBytes { limit: 4, .. })));
}

#[test]
fn custom_codecs_are_sorted_and_duplicates_refused() {
    let codec = |t: &str, v: &str| CustomCodec { type_id: t.into(), version: v.into(), wire_schema_id: "w".into() };
    let mut sorted = request();
    sorted.custom_codecs = vec![codec("b", "1"), codec("a", "2"), codec("a", "1")];
    let artifact = compile(sorted, "compile").unwrap();
    let keys: Vec<(String, String)> = artifact.custom_codecs.iter().map(|c| (c.type_id.clone(), c.version.clone())).collect();
    assert_eq!(keys, vec![("a".into(), "1".into()), ("a".into(), "2".into()), ("b".into(), "1".into())]);
    let mut duplicate = request();
    duplicate.custom_codecs = vec![codec("b", "1"), codec("a", "1"), codec("b", "1")];
    assert!(matches!(compile(duplicate, "x"), Err(ArtifactCompileError::DuplicateCodec(key)) if key == "b@1"));
}

#[test]
fn stored_artifact_checks_schema_duplicates_and_identity() {
    let mut artifact = compile(request(), "compile").unwrap();
    artifact.entry = "other.workflow.ts".into();
    assert!(matches!(artifact.verify_artifact_sha256(), Err(ArtifactCompileError::IdentityMismatch { .. })));
    artifact.entry = "main.workflow.ts".into();
    artifact.validation_bundles[0].bytes += 1;
    assert!(matches!(artifact.verify_bundles(), Err(ArtifactCompileError::BundleIdentityMismatch(id)) if id == "output"));
    let duplicate = ModuleCopy::from(&artifact.modules[0]);
    artifact.modules.push(duplicate.into());
    assert!(matches!(artifact.verify_sources(), Err(ArtifactCompileError::DuplicateModule(_))));
    artifact.schema = "other".into();
    assert!(matches!(artifact.verify_sources(), Err(ArtifactCompileError::UnsupportedSchema(s)) if s == "other"));
}

struct ModuleCopy(String, String, usize, String);

impl From<&orchestra_core::artifact::ModuleIdentity> for ModuleCopy {
    fn from(m: &orchestra_core::artifact::ModuleIdentity) -> Self {
        ModuleCopy(m.specifier.clone(), m.source.clone(), m.bytes, m.sha256.clone())
    }
}

impl From<ModuleCopy> for orchestra_core::artifact::ModuleIdentity {
    fn from(m: ModuleCopy) -> Self {
        orchestra_core::artifact::ModuleIdentity { specifier: m.0, source: m.1, bytes: m.2, sha256: m.3 }
    }
}
