//! Content-addressed workflow artifacts: a closed source graph checked against
//! its limits, each source identified by its SHA-256, and the whole identified
//! by the SHA-256 of its canonical JSON form.
use crate::compiler::CompileError;
use crate::digest::hex_lower;
use crate::digest::sha256_digest;
use crate::digest::sha256_hex;
use crate::digest::sha256_hex_bytes;
use crate::digest::sha256_hex_str;
use crate::json::JsonValue;
use crate::order::text_order;
use crate::plan::ExecutionPlan;
use crate::text::push_str;
use crate::text::str_eq;
use crate::text::to_owned_string;
use crate::text::trim;
use crate::text::trim_seq;
use crate::text::utf8_byte_len;
use crate::text::utf8_len;
use crate::evaluator::canonical_digest;
use crate::inputs::JsonView;
use crate::inputs::entries_view;
use crate::inputs::json_view;
use crate::inputs::values_view;
use crate::plan_json::plan_view;
use crate::profile_json::member;
use crate::profile_json::num;
use crate::profile_json::number_value;
use crate::profile_json::object_value;
use crate::profile_json::text_value;
use vstd::prelude::*;

verus! {

pub const WORKFLOW_ARTIFACT_SCHEMA: &'static str = "orchestra-workflow-artifact-v1";

pub struct CompatibilityTuple {
    pub product_release_id: String,
    pub agents_revision: String,
    pub zod_revision: String,
    pub evaluator_revision: String,
    pub adapter_abi: String,
    pub canonicalizer: String,
    pub issue_format: String,
    pub target: String,
    pub sandbox_identity: String,
}

#[derive(Clone, Copy, Debug, PartialEq, Eq, Structural)]
pub struct CompileLimits {
    pub module_count: usize,
    pub total_source_bytes: usize,
    pub module_source_bytes: usize,
    pub validation_bundle_bytes: usize,
}

impl CompileLimits {
    /// 256 modules of at most 1 MiB, 4 MiB in all, bundles of at most 2 MiB.
    pub fn default() -> (r: CompileLimits)
        ensures
            r.module_count == 256,
            r.total_source_bytes == 4 * 1024 * 1024,
            r.module_source_bytes == 1024 * 1024,
            r.validation_bundle_bytes == 2 * 1024 * 1024,
    {
        CompileLimits {
            module_count: 256,
            total_source_bytes: 4 * 1024 * 1024,
            module_source_bytes: 1024 * 1024,
            validation_bundle_bytes: 2 * 1024 * 1024,
        }
    }
}

pub struct CustomCodec {
    pub type_id: String,
    pub version: String,
    pub wire_schema_id: String,
}

/// A closed source graph to compile: modules and bundles ordered by name.
pub struct CompileRequest {
    pub entry: String,
    pub modules: Vec<(String, String)>,
    pub validation_bundles: Vec<(String, String)>,
    pub guidance_schemas: Vec<(String, JsonValue)>,
    pub custom_codecs: Vec<CustomCodec>,
    pub compatibility: CompatibilityTuple,
    pub limits: CompileLimits,
}

pub struct ModuleIdentity {
    pub specifier: String,
    pub source: String,
    pub bytes: usize,
    pub sha256: String,
}

pub struct SchemaBundle {
    pub schema_id: String,
    pub source: String,
    pub bytes: usize,
    pub sha256: String,
}

/// An artifact before its identity is computed.
pub struct UnsignedArtifact {
    pub schema: String,
    pub entry: String,
    pub modules: Vec<ModuleIdentity>,
    pub plan: ExecutionPlan,
    pub validation_bundles: Vec<SchemaBundle>,
    pub guidance_schemas: Vec<(String, JsonValue)>,
    pub custom_codecs: Vec<CustomCodec>,
    pub compatibility: CompatibilityTuple,
    pub limits: CompileLimits,
}

pub struct CompiledWorkflow {
    pub schema: String,
    pub entry: String,
    pub modules: Vec<ModuleIdentity>,
    pub plan: ExecutionPlan,
    pub validation_bundles: Vec<SchemaBundle>,
    pub guidance_schemas: Vec<(String, JsonValue)>,
    pub custom_codecs: Vec<CustomCodec>,
    pub compatibility: CompatibilityTuple,
    pub limits: CompileLimits,
    pub artifact_sha256: String,
}

#[derive(Debug)]
pub enum ArtifactCompileError {
    MissingEntry(String),
    EmptyGraph,
    ModuleCount { actual: usize, limit: usize },
    ModuleBytes { specifier: String, actual: usize, limit: usize },
    TotalSourceBytes { actual: usize, limit: usize },
    BundleBytes { schema_id: String, actual: usize, limit: usize },
    DuplicateCodec(String),
    EmptyCompatibility(String),
    Workflow(CompileError),
    Canonical(String),
    IdentityMismatch { expected: String, actual: String },
    SourceIdentityMismatch(String),
    BundleIdentityMismatch(String),
    UnsupportedSchema(String),
    DuplicateModule(String),
    PlanMismatch,
}

// ---------------------------------------------------------------------------
// Compatibility

pub open spec fn blank(s: Seq<char>) -> bool {
    trim_seq(s).len() == 0
}

/// The first compatibility field (in declaration order) that is blank, by its wire name.
pub open spec fn blank_compatibility(t: CompatibilityTuple) -> Option<Seq<char>> {
    if blank(t.product_release_id@) {
        Some("productReleaseId"@)
    } else if blank(t.agents_revision@) {
        Some("agentsRevision"@)
    } else if blank(t.zod_revision@) {
        Some("zodRevision"@)
    } else if blank(t.evaluator_revision@) {
        Some("evaluatorRevision"@)
    } else if blank(t.adapter_abi@) {
        Some("adapterAbi"@)
    } else if blank(t.canonicalizer@) {
        Some("canonicalizer"@)
    } else if blank(t.issue_format@) {
        Some("issueFormat"@)
    } else if blank(t.target@) {
        Some("target"@)
    } else if blank(t.sandbox_identity@) {
        Some("sandboxIdentity"@)
    } else {
        None
    }
}

fn is_blank(s: &String) -> (r: bool)
    ensures
        r == blank(s@),
{
    crate::automation_validate::text_is_empty(trim(s.as_str()).as_str())
}

/// Every field of the compatibility tuple must hold more than whitespace.
pub fn validate_compatibility(t: &CompatibilityTuple) -> (r: Result<(), ArtifactCompileError>)
    ensures
        match blank_compatibility(*t) {
            None => r is Ok,
            Some(name) => r matches Err(ArtifactCompileError::EmptyCompatibility(n)) && n@ == name,
        },
{
    let name = if is_blank(&t.product_release_id) {
        "productReleaseId"
    } else if is_blank(&t.agents_revision) {
        "agentsRevision"
    } else if is_blank(&t.zod_revision) {
        "zodRevision"
    } else if is_blank(&t.evaluator_revision) {
        "evaluatorRevision"
    } else if is_blank(&t.adapter_abi) {
        "adapterAbi"
    } else if is_blank(&t.canonicalizer) {
        "canonicalizer"
    } else if is_blank(&t.issue_format) {
        "issueFormat"
    } else if is_blank(&t.target) {
        "target"
    } else if is_blank(&t.sandbox_identity) {
        "sandboxIdentity"
    } else {
        return Ok(());
    };
    Err(ArtifactCompileError::EmptyCompatibility(to_owned_string(name)))
}

// ---------------------------------------------------------------------------
// Sources

/// The index of the first source at or after `i` longer than `limit` bytes.
pub open spec fn first_oversized(srcs: Seq<(String, String)>, limit: usize, i: int) -> Option<int>
    decreases srcs.len() - i,
{
    if i < 0 || i >= srcs.len() {
        None
    } else if utf8_len(srcs[i].1@) > limit {
        Some(i)
    } else {
        first_oversized(srcs, limit, i + 1)
    }
}

/// The byte total of the first `n` sources, saturating at `usize::MAX`.
pub open spec fn saturated_total(srcs: Seq<(String, String)>, n: int) -> int
    decreases n,
{
    if n <= 0 || n > srcs.len() {
        0
    } else {
        let t = saturated_total(srcs, n - 1) + utf8_len(srcs[n - 1].1@);
        if t > usize::MAX { usize::MAX as int } else { t }
    }
}

/// The index of the first entry at or after `i` whose name is `name`.
pub open spec fn first_named(srcs: Seq<(String, String)>, name: Seq<char>, i: int) -> Option<int>
    decreases srcs.len() - i,
{
    if i < 0 || i >= srcs.len() {
        None
    } else if srcs[i].0@ == name {
        Some(i)
    } else {
        first_named(srcs, name, i + 1)
    }
}

/// `m` identifies source `s` named `name`: its bytes and their SHA-256.
pub open spec fn identifies(name: Seq<char>, source: Seq<char>, spec_name: Seq<char>, spec_source: Seq<char>, bytes: usize, sha: Seq<char>) -> bool {
    &&& name == spec_name
    &&& source == spec_source
    &&& bytes == utf8_len(spec_source)
    &&& sha == hex_lower(sha256_digest(vstd::utf8::encode_utf8(spec_source)))
}

pub open spec fn module_identifies(m: ModuleIdentity, src: (String, String)) -> bool {
    identifies(m.specifier@, m.source@, src.0@, src.1@, m.bytes, m.sha256@)
}

pub open spec fn bundle_identifies(b: SchemaBundle, src: (String, String)) -> bool {
    identifies(b.schema_id@, b.source@, src.0@, src.1@, b.bytes, b.sha256@)
}

/// What checking a request's source graph gives, before its entry is compiled.
pub open spec fn sources_checked(req: CompileRequest, r: Result<Seq<ModuleIdentity>, ArtifactCompileError>) -> bool {
    let mods = req.modules@;
    let limits = req.limits;
    if blank_compatibility(req.compatibility) is Some {
        r matches Err(ArtifactCompileError::EmptyCompatibility(n)) && n@ == blank_compatibility(req.compatibility)->0
    } else if mods.len() == 0 {
        r matches Err(ArtifactCompileError::EmptyGraph)
    } else if mods.len() > limits.module_count {
        r matches Err(ArtifactCompileError::ModuleCount { actual, limit }) && actual == mods.len()
            && limit == limits.module_count
    } else if first_oversized(mods, limits.module_source_bytes, 0) is Some {
        let i = first_oversized(mods, limits.module_source_bytes, 0)->0;
        r matches Err(ArtifactCompileError::ModuleBytes { specifier, actual, limit }) && specifier@ == mods[i].0@
            && actual == utf8_len(mods[i].1@) && limit == limits.module_source_bytes
    } else if saturated_total(mods, mods.len() as int) > limits.total_source_bytes {
        r matches Err(ArtifactCompileError::TotalSourceBytes { actual, limit })
            && actual == saturated_total(mods, mods.len() as int) && limit == limits.total_source_bytes
    } else if first_named(mods, req.entry@, 0) is None {
        r matches Err(ArtifactCompileError::MissingEntry(e)) && e@ == req.entry@
    } else {
        r matches Ok(ids) && ids.len() == mods.len()
            && forall|i: int| 0 <= i < mods.len() ==> #[trigger] module_identifies(ids[i], mods[i])
    }
}

fn identity_of(name: &String, source: &String) -> (r: (String, String, usize, String))
    ensures
        identifies(r.0@, r.1@, name@, source@, r.2, r.3@),
{
    let bytes = utf8_byte_len(source.as_str());
    let sha = sha256_hex_str(source.as_str());
    (name.clone(), source.clone(), bytes, sha)
}

/// Checks the compatibility tuple and the module graph against the limits, in
/// the order of the checks, and identifies every module.
pub fn check_sources(req: &CompileRequest) -> (r: Result<Vec<ModuleIdentity>, ArtifactCompileError>)
    ensures
        sources_checked(*req, match r {
            Ok(v) => Ok(v@),
            Err(e) => Err(e),
        }),
{
    validate_compatibility(&req.compatibility)?;
    let mods = &req.modules;
    if mods.len() == 0 {
        return Err(ArtifactCompileError::EmptyGraph);
    }
    if mods.len() > req.limits.module_count {
        return Err(ArtifactCompileError::ModuleCount { actual: mods.len(), limit: req.limits.module_count });
    }
    let mut total: usize = 0;
    let mut ids: Vec<ModuleIdentity> = Vec::new();
    let mut i: usize = 0;
    while i < mods.len()
        invariant
            i <= mods@.len(),
            mods == &req.modules,
            blank_compatibility(req.compatibility) is None,
            0 < mods@.len() <= req.limits.module_count,
            first_oversized(mods@, req.limits.module_source_bytes, 0) == first_oversized(mods@, req.limits.module_source_bytes, i as int),
            total == saturated_total(mods@, i as int),
            ids@.len() == i,
            forall|k: int| 0 <= k < i ==> #[trigger] module_identifies(ids@[k], mods@[k]),
        decreases mods.len() - i,
    {
        let (specifier, source, bytes, sha256) = identity_of(&mods[i].0, &mods[i].1);
        if bytes > req.limits.module_source_bytes {
            assert(first_oversized(mods@, req.limits.module_source_bytes, i as int) == Some(i as int));
            let e = ArtifactCompileError::ModuleBytes { specifier, actual: bytes, limit: req.limits.module_source_bytes };
            assert(blank_compatibility(req.compatibility) is None);
            assert(sources_checked(*req, Err(e)));
            return Err(e);
        }
        total = if total > usize::MAX - bytes { usize::MAX } else { total + bytes };
        ids.push(ModuleIdentity { specifier, source, bytes, sha256 });
        i = i + 1;
    }
    if total > req.limits.total_source_bytes {
        return Err(ArtifactCompileError::TotalSourceBytes { actual: total, limit: req.limits.total_source_bytes });
    }
    if req.entry_source().is_none() {
        return Err(ArtifactCompileError::MissingEntry(req.entry.clone()));
    }
    Ok(ids)
}

impl CompileRequest {
    /// The source of the entry module, when the graph holds it.
    pub fn entry_source(&self) -> (r: Option<&String>)
        ensures
            match first_named(self.modules@, self.entry@, 0) {
                Some(i) => r == Some(&self.modules@[i].1),
                None => r is None,
            },
    {
        let mut i: usize = 0;
        while i < self.modules.len()
            invariant
                i <= self.modules@.len(),
                first_named(self.modules@, self.entry@, 0) == first_named(self.modules@, self.entry@, i as int),
            decreases self.modules.len() - i,
        {
            if str_eq(self.modules[i].0.as_str(), self.entry.as_str()) {
                return Some(&self.modules[i].1);
            }
            i = i + 1;
        }
        None
    }
}

// ---------------------------------------------------------------------------
// Validation bundles

pub open spec fn bundles_checked(srcs: Seq<(String, String)>, limit: usize, r: Result<Seq<SchemaBundle>, ArtifactCompileError>) -> bool {
    match first_oversized(srcs, limit, 0) {
        Some(i) => r matches Err(ArtifactCompileError::BundleBytes { schema_id, actual, limit: l }) && schema_id@ == srcs[i].0@
            && actual == utf8_len(srcs[i].1@) && l == limit,
        None => r matches Ok(bs) && bs.len() == srcs.len()
            && forall|i: int| 0 <= i < srcs.len() ==> #[trigger] bundle_identifies(bs[i], srcs[i]),
    }
}

fn identify_bundles(srcs: &Vec<(String, String)>, limit: usize) -> (r: Result<Vec<SchemaBundle>, ArtifactCompileError>)
    ensures
        bundles_checked(srcs@, limit, match r {
            Ok(v) => Ok(v@),
            Err(e) => Err(e),
        }),
{
    let mut out: Vec<SchemaBundle> = Vec::new();
    let mut i: usize = 0;
    while i < srcs.len()
        invariant
            i <= srcs@.len(),
            first_oversized(srcs@, limit, 0) == first_oversized(srcs@, limit, i as int),
            out@.len() == i,
            forall|k: int| 0 <= k < i ==> #[trigger] bundle_identifies(out@[k], srcs@[k]),
        decreases srcs.len() - i,
    {
        let (schema_id, source, bytes, sha256) = identity_of(&srcs[i].0, &srcs[i].1);
        if bytes > limit {
            return Err(ArtifactCompileError::BundleBytes { schema_id, actual: bytes, limit });
        }
        out.push(SchemaBundle { schema_id, source, bytes, sha256 });
        i = i + 1;
    }
    Ok(out)
}

// ---------------------------------------------------------------------------
// Custom codecs

/// Codecs are ordered by type id, then version.
pub open spec fn codec_order(a: CustomCodec, b: CustomCodec) -> int {
    crate::order::then_order(text_order(a.type_id@, b.type_id@), text_order(a.version@, b.version@))
}

/// Each codec is ordered no later than the next.
pub open spec fn adjacent_sorted(cs: Seq<CustomCodec>) -> bool {
    forall|k: int| 0 <= k < cs.len() - 1 ==> codec_order(#[trigger] cs[k], cs[k + 1]) <= 0
}

proof fn lemma_codec_order_flip(a: CustomCodec, b: CustomCodec)
    ensures
        codec_order(a, b) == -codec_order(b, a),
{
    crate::order::lemma_text_order_eq(a.type_id@, b.type_id@);
    crate::order::lemma_text_order_eq(a.version@, b.version@);
}

pub open spec fn codec_key(c: CustomCodec) -> Seq<char> {
    c.type_id@ + "@"@ + c.version@
}

/// The index of the first codec at or after `k` that shares type id and version with the next.
pub open spec fn first_adjacent_duplicate(cs: Seq<CustomCodec>, k: int) -> Option<int>
    decreases cs.len() - k,
{
    if k < 0 || k + 1 >= cs.len() {
        None
    } else if cs[k].type_id@ == cs[k + 1].type_id@ && cs[k].version@ == cs[k + 1].version@ {
        Some(k)
    } else {
        first_adjacent_duplicate(cs, k + 1)
    }
}

fn compare_codecs(a: &CustomCodec, b: &CustomCodec) -> (r: i8)
    ensures
        r as int == codec_order(*a, *b),
{
    let t = crate::order::compare_text(a.type_id.as_str(), b.type_id.as_str());
    if t != 0 {
        t
    } else {
        crate::order::compare_text(a.version.as_str(), b.version.as_str())
    }
}

/// The codecs stably sorted by type id and version.
fn sort_codecs(codecs: Vec<CustomCodec>) -> (r: Vec<CustomCodec>)
    ensures
        adjacent_sorted(r@),
        r@.to_multiset() == codecs@.to_multiset(),
{
    broadcast use vstd::seq_lib::group_to_multiset_ensures;
    broadcast use vstd::multiset::group_multiset_axioms;
    let mut rest = codecs;
    let ghost input = rest@;
    let mut out: Vec<CustomCodec> = Vec::new();
    proof {
        assert(input.take(0) =~= Seq::<CustomCodec>::empty());
    }
    while rest.len() > 0
        invariant
            adjacent_sorted(out@),
            out@.to_multiset().add(rest@.to_multiset()) == input.to_multiset(),
        decreases rest.len(),
    {
        let ghost r_old = rest@;
        let x = rest.remove(0);
        proof {
            vstd::seq_lib::to_multiset_remove(r_old, 0);
            assert(r_old[0] == x);
            assert(r_old.contains(x));
        }
        let mut p: usize = out.len();
        while p > 0 && compare_codecs(&out[p - 1], &x) > 0
            invariant
                p <= out@.len(),
                adjacent_sorted(out@),
                p < out@.len() ==> codec_order(out@[p as int], x) > 0,
            decreases p,
        {
            p = p - 1;
        }
        let ghost before = out@;
        out.insert(p, x);
        proof {
            assert(p > 0 ==> codec_order(before[p - 1], x) <= 0);
            assert forall|k: int| 0 <= k < out@.len() - 1 implies codec_order(#[trigger] out@[k], out@[k + 1]) <= 0 by {
                if k < p - 1 {
                    assert(out@[k] == before[k] && out@[k + 1] == before[k + 1]);
                } else if k == p - 1 {
                    assert(out@[k] == before[k] && out@[k + 1] == x);
                } else if k == p {
                    assert(out@[k] == x && out@[k + 1] == before[k]);
                    lemma_codec_order_flip(before[k], x);
                } else {
                    assert(out@[k] == before[k - 1] && out@[k + 1] == before[k]);
                }
            }
            vstd::seq_lib::to_multiset_insert(before, p as int, x);
            assert(out@ == before.insert(p as int, x));
            assert(out@.to_multiset() == before.to_multiset().insert(x));
            assert(rest@ == r_old.remove(0));
            assert(rest@.to_multiset() == r_old.to_multiset().remove(x));
            vstd::seq_lib::to_multiset_contains(r_old, x);
            assert(r_old.to_multiset().count(x) > 0);
            assert(out@.to_multiset().add(rest@.to_multiset()) =~= before.to_multiset().add(r_old.to_multiset()));
        }
    }
    out
}

fn codec_key_text(c: &CustomCodec) -> (r: String)
    ensures
        r@ == codec_key(*c),
{
    let mut s = c.type_id.clone();
    push_str(&mut s, "@");
    push_str(&mut s, c.version.as_str());
    s
}

/// Two codecs share a type id and version, and `e` names the first such pair
/// of the codecs in sorted order.
pub open spec fn duplicate_codec_error(codecs: Seq<CustomCodec>, e: ArtifactCompileError) -> bool {
    exists|sorted: Seq<CustomCodec>| #![trigger adjacent_sorted(sorted)] {
        &&& adjacent_sorted(sorted)
        &&& sorted.to_multiset() == codecs.to_multiset()
        &&& first_adjacent_duplicate(sorted, 0) matches Some(k)
        &&& e matches ArtifactCompileError::DuplicateCodec(m) && m@ == codec_key(sorted[k])
    }
}

/// The codecs sorted, or the first type id and version that two of them share.
pub fn order_codecs(codecs: Vec<CustomCodec>) -> (r: Result<Vec<CustomCodec>, ArtifactCompileError>)
    ensures
        exists|sorted: Seq<CustomCodec>| #![trigger adjacent_sorted(sorted)] {
            &&& adjacent_sorted(sorted)
            &&& sorted.to_multiset() == codecs@.to_multiset()
            &&& match first_adjacent_duplicate(sorted, 0) {
                None => r matches Ok(v) && v@ == sorted,
                Some(k) => r matches Err(ArtifactCompileError::DuplicateCodec(m)) && m@ == codec_key(sorted[k]),
            }
        },
{
    let ghost cv = codecs@;
    let sorted = sort_codecs(codecs);
    let ghost sv = sorted@;
    let mut k: usize = 0;
    while k < sorted.len() && k + 1 < sorted.len()
        invariant
            sv == sorted@,
            cv == codecs@,
            adjacent_sorted(sv),
            sv.to_multiset() == cv.to_multiset(),
            first_adjacent_duplicate(sv, 0) == first_adjacent_duplicate(sv, k as int),
        decreases sorted.len() - k,
    {
        if str_eq(sorted[k].type_id.as_str(), sorted[k + 1].type_id.as_str())
            && str_eq(sorted[k].version.as_str(), sorted[k + 1].version.as_str()) {
            let m = codec_key_text(&sorted[k]);
            let r: Result<Vec<CustomCodec>, ArtifactCompileError> = Err(ArtifactCompileError::DuplicateCodec(m));
            proof {
                assert(first_adjacent_duplicate(sv, k as int) == Some(k as int));
                assert(adjacent_sorted(sv) && sv.to_multiset() == cv.to_multiset() && match first_adjacent_duplicate(sv, 0) {
                    None => r matches Ok(v) && v@ == sv,
                    Some(j) => r matches Err(ArtifactCompileError::DuplicateCodec(mm)) && mm@ == codec_key(sv[j]),
                });
                assert(exists|sorted: Seq<CustomCodec>| #![trigger adjacent_sorted(sorted)] {
                    &&& adjacent_sorted(sorted)
                    &&& sorted.to_multiset() == cv.to_multiset()
                    &&& match first_adjacent_duplicate(sorted, 0) {
                        None => r matches Ok(v) && v@ == sorted,
                        Some(j) => r matches Err(ArtifactCompileError::DuplicateCodec(mm)) && mm@ == codec_key(sorted[j]),
                    }
                });
            }
            return r;
        }
        k = k + 1;
    }
    proof {
        assert(first_adjacent_duplicate(sv, k as int) is None);
    }
    Ok(sorted)
}

// ---------------------------------------------------------------------------
// Assembly

/// Compile one closed source graph into an artifact awaiting its identity.
/// `compiled_entry` is what compiling the entry module's source gave (see
/// `CompileRequest::entry_source`); it is looked at only once the graph passed
/// its checks. The checks come in this order: the compatibility
/// tuple, the graph's size, each module's size, the total size, the entry, the
/// entry's compilation, each bundle's size, and the custom codecs.
pub fn assemble_artifact(req: CompileRequest, compiled_entry: Result<ExecutionPlan, CompileError>)
    -> (r: Result<UnsignedArtifact, ArtifactCompileError>)
    ensures
        match r {
            Ok(u) => {
                &&& sources_checked(req, Ok(u.modules@))
                &&& compiled_entry matches Ok(p) && u.plan == p
                &&& bundles_checked(req.validation_bundles@, req.limits.validation_bundle_bytes, Ok(u.validation_bundles@))
                &&& adjacent_sorted(u.custom_codecs@)
                &&& u.custom_codecs@.to_multiset() == req.custom_codecs@.to_multiset()
                &&& first_adjacent_duplicate(u.custom_codecs@, 0) is None
                &&& u.schema@ == WORKFLOW_ARTIFACT_SCHEMA@
                &&& u.entry == req.entry
                &&& u.guidance_schemas == req.guidance_schemas
                &&& u.compatibility == req.compatibility
                &&& u.limits == req.limits
            },
            Err(e) => {
                ||| sources_checked(req, Err(e))
                ||| (exists|ids: Seq<ModuleIdentity>| sources_checked(req, Ok(ids))) && {
                    ||| compiled_entry matches Err(c) && e == ArtifactCompileError::Workflow(c)
                    ||| compiled_entry is Ok && bundles_checked(req.validation_bundles@, req.limits.validation_bundle_bytes, Err(e))
                    ||| compiled_entry is Ok && (exists|bs: Seq<SchemaBundle>|
                        bundles_checked(req.validation_bundles@, req.limits.validation_bundle_bytes, Ok(bs)))
                        && duplicate_codec_error(req.custom_codecs@, e)
                }
            },
        },
{
    let modules = check_sources(&req)?;
    let plan = match compiled_entry {
        Ok(plan) => plan,
        Err(error) => return Err(ArtifactCompileError::Workflow(error)),
    };
    let bundles = identify_bundles(&req.validation_bundles, req.limits.validation_bundle_bytes)?;
    let CompileRequest { entry, modules: _, validation_bundles: _, guidance_schemas, custom_codecs, compatibility, limits } = req;
    let custom_codecs = order_codecs(custom_codecs)?;
    Ok(UnsignedArtifact {
        schema: to_owned_string(WORKFLOW_ARTIFACT_SCHEMA),
        entry,
        modules,
        plan,
        validation_bundles: bundles,
        guidance_schemas,
        custom_codecs,
        compatibility,
        limits,
    })
}

// ---------------------------------------------------------------------------
// Identity

pub open spec fn module_view(m: ModuleIdentity) -> JsonView {
    JsonView::Object(seq![
        ("specifier"@, JsonView::Str(m.specifier@)),
        ("source"@, JsonView::Str(m.source@)),
        ("bytes"@, num(m.bytes as nat)),
        ("sha256"@, JsonView::Str(m.sha256@)),
    ])
}

pub open spec fn bundle_view(b: SchemaBundle) -> JsonView {
    JsonView::Object(seq![
        ("schemaId"@, JsonView::Str(b.schema_id@)),
        ("source"@, JsonView::Str(b.source@)),
        ("bytes"@, num(b.bytes as nat)),
        ("sha256"@, JsonView::Str(b.sha256@)),
    ])
}

pub open spec fn codec_view(c: CustomCodec) -> JsonView {
    JsonView::Object(seq![
        ("typeId"@, JsonView::Str(c.type_id@)),
        ("version"@, JsonView::Str(c.version@)),
        ("wireSchemaId"@, JsonView::Str(c.wire_schema_id@)),
    ])
}

pub open spec fn compatibility_view(t: CompatibilityTuple) -> JsonView {
    JsonView::Object(seq![
        ("productReleaseId"@, JsonView::Str(t.product_release_id@)),
        ("agentsRevision"@, JsonView::Str(t.agents_revision@)),
        ("zodRevision"@, JsonView::Str(t.zod_revision@)),
        ("evaluatorRevision"@, JsonView::Str(t.evaluator_revision@)),
        ("adapterAbi"@, JsonView::Str(t.adapter_abi@)),
        ("canonicalizer"@, JsonView::Str(t.canonicalizer@)),
        ("issueFormat"@, JsonView::Str(t.issue_format@)),
        ("target"@, JsonView::Str(t.target@)),
        ("sandboxIdentity"@, JsonView::Str(t.sandbox_identity@)),
    ])
}

pub open spec fn limits_view(l: CompileLimits) -> JsonView {
    JsonView::Object(seq![
        ("moduleCount"@, num(l.module_count as nat)),
        ("totalSourceBytes"@, num(l.total_source_bytes as nat)),
        ("moduleSourceBytes"@, num(l.module_source_bytes as nat)),
        ("validationBundleBytes"@, num(l.validation_bundle_bytes as nat)),
    ])
}

/// An artifact without its identity, as JSON data: bundles keyed by schema id.
pub open spec fn unsigned_view(
    schema: String,
    entry: String,
    modules: Seq<ModuleIdentity>,
    plan: ExecutionPlan,
    bundles: Seq<SchemaBundle>,
    guidance: Seq<(String, JsonValue)>,
    codecs: Seq<CustomCodec>,
    compatibility: CompatibilityTuple,
    limits: CompileLimits,
) -> JsonView {
    JsonView::Object(seq![
        ("schema"@, JsonView::Str(schema@)),
        ("entry"@, JsonView::Str(entry@)),
        ("modules"@, JsonView::Array(modules.map_values(|m: ModuleIdentity| module_view(m)))),
        ("plan"@, plan_view(plan)),
        ("validationBundles"@, JsonView::Object(bundles.map_values(|b: SchemaBundle| (b.schema_id@, bundle_view(b))))),
        ("guidanceSchemas"@, JsonView::Object(entries_view(guidance))),
        ("customCodecs"@, JsonView::Array(codecs.map_values(|c: CustomCodec| codec_view(c)))),
        ("compatibility"@, compatibility_view(compatibility)),
        ("limits"@, limits_view(limits)),
    ])
}

/// The identity of an artifact: the SHA-256 of the canonical JSON of the
/// artifact without it, when that has a canonical form.
pub open spec fn artifact_identity(
    schema: String,
    entry: String,
    modules: Seq<ModuleIdentity>,
    plan: ExecutionPlan,
    bundles: Seq<SchemaBundle>,
    guidance: Seq<(String, JsonValue)>,
    codecs: Seq<CustomCodec>,
    compatibility: CompatibilityTuple,
    limits: CompileLimits,
) -> Option<Seq<char>> {
    canonical_digest(unsigned_view(schema, entry, modules, plan, bundles, guidance, codecs, compatibility, limits))
}

fn field(name: &str, value: &String) -> (r: (String, JsonValue))
    ensures
        r.0@ == name@,
        json_view(r.1) == JsonView::Str(value@),
{
    member(name, text_value(value))
}

fn modules_value(ms: &Vec<ModuleIdentity>) -> (r: JsonValue)
    ensures
        json_view(r) == JsonView::Array(ms@.map_values(|m: ModuleIdentity| module_view(m))),
{
    let mut out: Vec<JsonValue> = Vec::new();
    let mut i: usize = 0;
    while i < ms.len()
        invariant
            i <= ms@.len(),
            values_view(out@) == ms@.take(i as int).map_values(|m: ModuleIdentity| module_view(m)),
        decreases ms.len() - i,
    {
        let m = &ms[i];
        let mut fs: Vec<(String, JsonValue)> = Vec::new();
        fs.push(field("specifier", &m.specifier));
        fs.push(field("source", &m.source));
        fs.push(member("bytes", number_value(m.bytes as u64)));
        fs.push(field("sha256", &m.sha256));
        proof {
            assert(entries_view(fs@) =~= module_view(*m)->Object_0);
        }
        let v = object_value(fs);
        let ghost before = values_view(out@);
        out.push(v);
        proof {
            assert(values_view(out@) =~= before.push(json_view(v)));
            assert(ms@.take(i + 1).map_values(|m: ModuleIdentity| module_view(m)) =~= ms@.take(i as int).map_values(
                |m: ModuleIdentity| module_view(m),
            ).push(module_view(ms@[i as int])));
        }
        i = i + 1;
    }
    proof {
        assert(ms@.take(ms@.len() as int) =~= ms@);
    }
    let r = JsonValue::Array(out);
    proof {
        crate::inputs::lemma_array_view_pub(r);
    }
    r
}

fn bundles_value(bs: &Vec<SchemaBundle>) -> (r: JsonValue)
    ensures
        json_view(r) == JsonView::Object(bs@.map_values(|b: SchemaBundle| (b.schema_id@, bundle_view(b)))),
{
    let mut out: Vec<(String, JsonValue)> = Vec::new();
    let mut i: usize = 0;
    while i < bs.len()
        invariant
            i <= bs@.len(),
            entries_view(out@) == bs@.take(i as int).map_values(|b: SchemaBundle| (b.schema_id@, bundle_view(b))),
        decreases bs.len() - i,
    {
        let b = &bs[i];
        let mut fs: Vec<(String, JsonValue)> = Vec::new();
        fs.push(field("schemaId", &b.schema_id));
        fs.push(field("source", &b.source));
        fs.push(member("bytes", number_value(b.bytes as u64)));
        fs.push(field("sha256", &b.sha256));
        proof {
            assert(entries_view(fs@) =~= bundle_view(*b)->Object_0);
        }
        let v = object_value(fs);
        let k = b.schema_id.clone();
        let ghost before = entries_view(out@);
        out.push((k, v));
        proof {
            assert(entries_view(out@) =~= before.push((k@, json_view(v))));
            assert(bs@.take(i + 1).map_values(|b: SchemaBundle| (b.schema_id@, bundle_view(b))) =~= bs@.take(i as int).map_values(
                |b: SchemaBundle| (b.schema_id@, bundle_view(b)),
            ).push((bs@[i as int].schema_id@, bundle_view(bs@[i as int]))));
        }
        i = i + 1;
    }
    proof {
        assert(bs@.take(bs@.len() as int) =~= bs@);
    }
    object_value(out)
}

fn guidance_value(gs: &Vec<(String, JsonValue)>) -> (r: JsonValue)
    ensures
        json_view(r) == JsonView::Object(entries_view(gs@)),
{
    let mut out: Vec<(String, JsonValue)> = Vec::new();
    let mut i: usize = 0;
    while i < gs.len()
        invariant
            i <= gs@.len(),
            entries_view(out@) == entries_view(gs@.take(i as int)),
        decreases gs.len() - i,
    {
        let v = crate::inputs::copy_json(&gs[i].1);
        let k = gs[i].0.clone();
        let ghost before = entries_view(out@);
        out.push((k, v));
        proof {
            assert(entries_view(out@) =~= before.push((k@, json_view(v))));
            assert(entries_view(gs@.take(i + 1)) =~= entries_view(gs@.take(i as int)).push((gs@[i as int].0@, json_view(gs@[i as int].1))));
        }
        i = i + 1;
    }
    proof {
        assert(gs@.take(gs@.len() as int) =~= gs@);
    }
    object_value(out)
}

fn codecs_value(cs: &Vec<CustomCodec>) -> (r: JsonValue)
    ensures
        json_view(r) == JsonView::Array(cs@.map_values(|c: CustomCodec| codec_view(c))),
{
    let mut out: Vec<JsonValue> = Vec::new();
    let mut i: usize = 0;
    while i < cs.len()
        invariant
            i <= cs@.len(),
            values_view(out@) == cs@.take(i as int).map_values(|c: CustomCodec| codec_view(c)),
        decreases cs.len() - i,
    {
        let c = &cs[i];
        let mut fs: Vec<(String, JsonValue)> = Vec::new();
        fs.push(field("typeId", &c.type_id));
        fs.push(field("version", &c.version));
        fs.push(field("wireSchemaId", &c.wire_schema_id));
        proof {
            assert(entries_view(fs@) =~= codec_view(*c)->Object_0);
        }
        let v = object_value(fs);
        let ghost before = values_view(out@);
        out.push(v);
        proof {
            assert(values_view(out@) =~= before.push(json_view(v)));
            assert(cs@.take(i + 1).map_values(|c: CustomCodec| codec_view(c)) =~= cs@.take(i as int).map_values(
                |c: CustomCodec| codec_view(c),
            ).push(codec_view(cs@[i as int])));
        }
        i = i + 1;
    }
    proof {
        assert(cs@.take(cs@.len() as int) =~= cs@);
    }
    let r = JsonValue::Array(out);
    proof {
        crate::inputs::lemma_array_view_pub(r);
    }
    r
}

fn compatibility_value(t: &CompatibilityTuple) -> (r: JsonValue)
    ensures
        json_view(r) == compatibility_view(*t),
{
    let mut fs: Vec<(String, JsonValue)> = Vec::new();
    fs.push(field("productReleaseId", &t.product_release_id));
    fs.push(field("agentsRevision", &t.agents_revision));
    fs.push(field("zodRevision", &t.zod_revision));
    fs.push(field("evaluatorRevision", &t.evaluator_revision));
    fs.push(field("adapterAbi", &t.adapter_abi));
    fs.push(field("canonicalizer", &t.canonicalizer));
    fs.push(field("issueFormat", &t.issue_format));
    fs.push(field("target", &t.target));
    fs.push(field("sandboxIdentity", &t.sandbox_identity));
    proof {
        assert(entries_view(fs@) =~= compatibility_view(*t)->Object_0);
    }
    object_value(fs)
}

fn limits_value(l: &CompileLimits) -> (r: JsonValue)
    ensures
        json_view(r) == limits_view(*l),
{
    let mut fs: Vec<(String, JsonValue)> = Vec::new();
    fs.push(member("moduleCount", number_value(l.module_count as u64)));
    fs.push(member("totalSourceBytes", number_value(l.total_source_bytes as u64)));
    fs.push(member("moduleSourceBytes", number_value(l.module_source_bytes as u64)));
    fs.push(member("validationBundleBytes", number_value(l.validation_bundle_bytes as u64)));
    proof {
        assert(entries_view(fs@) =~= limits_view(*l)->Object_0);
    }
    object_value(fs)
}

/// The identity of an artifact's parts (see `artifact_identity`).
fn identity_of_parts(
    schema: &String,
    entry: &String,
    modules: &Vec<ModuleIdentity>,
    plan: &ExecutionPlan,
    bundles: &Vec<SchemaBundle>,
    guidance: &Vec<(String, JsonValue)>,
    codecs: &Vec<CustomCodec>,
    compatibility: &CompatibilityTuple,
    limits: &CompileLimits,
) -> (r: Result<String, ArtifactCompileError>)
    ensures
        match artifact_identity(*schema, *entry, modules@, *plan, bundles@, guidance@, codecs@, *compatibility, *limits) {
            Some(d) => r matches Ok(x) && x@ == d,
            None => r matches Err(ArtifactCompileError::Canonical(_)),
        },
{
    let mut ms: Vec<(String, JsonValue)> = Vec::new();
    ms.push(field("schema", schema));
    ms.push(field("entry", entry));
    ms.push(member("modules", modules_value(modules)));
    ms.push(member("plan", crate::plan_json::plan_json(plan)));
    ms.push(member("validationBundles", bundles_value(bundles)));
    ms.push(member("guidanceSchemas", guidance_value(guidance)));
    ms.push(member("customCodecs", codecs_value(codecs)));
    ms.push(member("compatibility", compatibility_value(compatibility)));
    ms.push(member("limits", limits_value(limits)));
    proof {
        assert(entries_view(ms@) =~= unsigned_view(*schema, *entry, modules@, *plan, bundles@, guidance@, codecs@, *compatibility, *limits)->Object_0);
    }
    let value = object_value(ms);
    match crate::evaluator::canonical_sha256(&value) {
        Ok(d) => Ok(d),
        Err(e) => Err(ArtifactCompileError::Canonical(e.message)),
    }
}

/// The artifact identified by the SHA-256 of its canonical JSON.
pub fn seal_artifact(u: UnsignedArtifact) -> (r: Result<CompiledWorkflow, ArtifactCompileError>)
    ensures
        match artifact_identity(u.schema, u.entry, u.modules@, u.plan, u.validation_bundles@, u.guidance_schemas@,
            u.custom_codecs@, u.compatibility, u.limits) {
            None => r matches Err(ArtifactCompileError::Canonical(_)),
            Some(d) => r matches Ok(w) && {
                &&& w.artifact_sha256@ == d
                &&& w.schema == u.schema
                &&& w.entry == u.entry
                &&& w.modules == u.modules
                &&& w.plan == u.plan
                &&& w.validation_bundles == u.validation_bundles
                &&& w.guidance_schemas == u.guidance_schemas
                &&& w.custom_codecs == u.custom_codecs
                &&& w.compatibility == u.compatibility
                &&& w.limits == u.limits
            },
        },
{
    let artifact_sha256 = identity_of_parts(
        &u.schema,
        &u.entry,
        &u.modules,
        &u.plan,
        &u.validation_bundles,
        &u.guidance_schemas,
        &u.custom_codecs,
        &u.compatibility,
        &u.limits,
    )?;
    Ok(CompiledWorkflow {
        schema: u.schema,
        entry: u.entry,
        modules: u.modules,
        plan: u.plan,
        validation_bundles: u.validation_bundles,
        guidance_schemas: u.guidance_schemas,
        custom_codecs: u.custom_codecs,
        compatibility: u.compatibility,
        limits: u.limits,
        artifact_sha256,
    })
}

// ---------------------------------------------------------------------------
// Verification of a stored artifact

pub open spec fn seen_before(ms: Seq<ModuleIdentity>, i: int) -> bool {
    exists|j: int| 0 <= j < i && #[trigger] ms[j].specifier@ == ms[i].specifier@
}

/// A recorded identity matches the source it records.
pub open spec fn identity_holds(source: Seq<char>, bytes: usize, sha: Seq<char>) -> bool {
    bytes == utf8_len(source) && sha == sha256_hex(source)
}

pub open spec fn module_fails(ms: Seq<ModuleIdentity>, i: int) -> bool {
    seen_before(ms, i) || !identity_holds(ms[i].source@, ms[i].bytes, ms[i].sha256@)
}

/// The first module at or after `i` that repeats a specifier or does not match its identity.
pub open spec fn first_failing_module(ms: Seq<ModuleIdentity>, i: int) -> Option<int>
    decreases ms.len() - i,
{
    if i < 0 || i >= ms.len() {
        None
    } else if module_fails(ms, i) {
        Some(i)
    } else {
        first_failing_module(ms, i + 1)
    }
}

/// The first module at or after `i` whose specifier is `name`.
pub open spec fn first_module_named(ms: Seq<ModuleIdentity>, name: Seq<char>, i: int) -> Option<int>
    decreases ms.len() - i,
{
    if i < 0 || i >= ms.len() {
        None
    } else if ms[i].specifier@ == name {
        Some(i)
    } else {
        first_module_named(ms, name, i + 1)
    }
}

/// The first bundle at or after `i` that does not match its identity.
pub open spec fn first_failing_bundle(bs: Seq<SchemaBundle>, i: int) -> Option<int>
    decreases bs.len() - i,
{
    if i < 0 || i >= bs.len() {
        None
    } else if !identity_holds(bs[i].source@, bs[i].bytes, bs[i].sha256@) {
        Some(i)
    } else {
        first_failing_bundle(bs, i + 1)
    }
}

fn identity_matches(source: &String, bytes: usize, sha: &String) -> (r: bool)
    ensures
        r == identity_holds(source@, bytes, sha@),
{
    bytes == utf8_byte_len(source.as_str()) && str_eq(sha256_hex_str(source.as_str()).as_str(), sha.as_str())
}

impl CompiledWorkflow {
    /// The first half of verifying an artifact's identity: the schema, each
    /// module's specifier (once) and identity, in order, and the entry module,
    /// whose source is returned for the caller to compile against the plan.
    pub fn verify_sources(&self) -> (r: Result<&String, ArtifactCompileError>)
        ensures
            self.schema@ != WORKFLOW_ARTIFACT_SCHEMA@ ==> (r matches Err(ArtifactCompileError::UnsupportedSchema(x))
                && x@ == self.schema@),
            self.schema@ == WORKFLOW_ARTIFACT_SCHEMA@ ==> match first_failing_module(self.modules@, 0) {
                Some(i) => if seen_before(self.modules@, i) {
                    r matches Err(ArtifactCompileError::DuplicateModule(x)) && x@ == self.modules@[i].specifier@
                } else {
                    r matches Err(ArtifactCompileError::SourceIdentityMismatch(x)) && x@ == self.modules@[i].specifier@
                },
                None => match first_module_named(self.modules@, self.entry@, 0) {
                    None => r matches Err(ArtifactCompileError::MissingEntry(x)) && x@ == self.entry@,
                    Some(i) => r == Ok::<&String, ArtifactCompileError>(&self.modules@[i].source),
                },
            },
    {
        if !str_eq(self.schema.as_str(), WORKFLOW_ARTIFACT_SCHEMA) {
            return Err(ArtifactCompileError::UnsupportedSchema(self.schema.clone()));
        }
        let ms = &self.modules;
        let mut i: usize = 0;
        while i < ms.len()
            invariant
                i <= ms@.len(),
                ms == &self.modules,
                self.schema@ == WORKFLOW_ARTIFACT_SCHEMA@,
                first_failing_module(ms@, 0) == first_failing_module(ms@, i as int),
            decreases ms.len() - i,
        {
            let mut j: usize = 0;
            while j < i
                invariant
                    j <= i < ms@.len(),
                    ms == &self.modules,
                    self.schema@ == WORKFLOW_ARTIFACT_SCHEMA@,
                    first_failing_module(ms@, 0) == first_failing_module(ms@, i as int),
                    forall|q: int| 0 <= q < j ==> ms@[q].specifier@ != ms@[i as int].specifier@,
                decreases i - j,
            {
                if str_eq(ms[j].specifier.as_str(), ms[i].specifier.as_str()) {
                    proof {
                        assert(seen_before(ms@, i as int));
                        assert(first_failing_module(ms@, i as int) == Some(i as int));
                    }
                    return Err(ArtifactCompileError::DuplicateModule(ms[i].specifier.clone()));
                }
                j = j + 1;
            }
            assert(!seen_before(ms@, i as int));
            if !identity_matches(&ms[i].source, ms[i].bytes, &ms[i].sha256) {
                return Err(ArtifactCompileError::SourceIdentityMismatch(ms[i].specifier.clone()));
            }
            i = i + 1;
        }
        let mut k: usize = 0;
        while k < ms.len()
            invariant
                k <= ms@.len(),
                ms == &self.modules,
                self.schema@ == WORKFLOW_ARTIFACT_SCHEMA@,
                first_failing_module(ms@, 0) is None,
                first_module_named(ms@, self.entry@, 0) == first_module_named(ms@, self.entry@, k as int),
            decreases ms.len() - k,
        {
            if str_eq(ms[k].specifier.as_str(), self.entry.as_str()) {
                return Ok(&ms[k].source);
            }
            k = k + 1;
        }
        Err(ArtifactCompileError::MissingEntry(self.entry.clone()))
    }

    /// The second half: each validation bundle's identity, in order.
    pub fn verify_bundles(&self) -> (r: Result<(), ArtifactCompileError>)
        ensures
            match first_failing_bundle(self.validation_bundles@, 0) {
                Some(i) => r matches Err(ArtifactCompileError::BundleIdentityMismatch(x))
                    && x@ == self.validation_bundles@[i].schema_id@,
                None => r is Ok,
            },
    {
        let bs = &self.validation_bundles;
        let mut i: usize = 0;
        while i < bs.len()
            invariant
                i <= bs@.len(),
                bs == &self.validation_bundles,
                first_failing_bundle(bs@, 0) == first_failing_bundle(bs@, i as int),
            decreases bs.len() - i,
        {
            if !identity_matches(&bs[i].source, bs[i].bytes, &bs[i].sha256) {
                return Err(ArtifactCompileError::BundleIdentityMismatch(bs[i].schema_id.clone()));
            }
            i = i + 1;
        }
        Ok(())
    }

    /// The plan check: the recorded plan against the plan compiled from the
    /// entry source, compared as JSON data.
    pub fn verify_plan(&self, compiled: &ExecutionPlan) -> (r: Result<(), ArtifactCompileError>)
        ensures
            r is Ok <==> crate::inputs::json_text(plan_view(*compiled)) == crate::inputs::json_text(plan_view(self.plan)),
            r matches Err(e) ==> e is PlanMismatch,
    {
        let mut a = String::new();
        crate::inputs::write_json(&crate::plan_json::plan_json(compiled), &mut a);
        let mut b = String::new();
        crate::inputs::write_json(&crate::plan_json::plan_json(&self.plan), &mut b);
        proof {
            assert(a@ =~= crate::inputs::json_text(plan_view(*compiled)));
            assert(b@ =~= crate::inputs::json_text(plan_view(self.plan)));
        }
        if str_eq(a.as_str(), b.as_str()) {
            Ok(())
        } else {
            Err(ArtifactCompileError::PlanMismatch)
        }
    }

    /// The last step: the recorded artifact identity against the SHA-256 of the
    /// canonical JSON of the artifact without it.
    pub fn verify_artifact_sha256(&self) -> (r: Result<(), ArtifactCompileError>)
        ensures
            match artifact_identity(self.schema, self.entry, self.modules@, self.plan, self.validation_bundles@,
                self.guidance_schemas@, self.custom_codecs@, self.compatibility, self.limits) {
                None => r matches Err(ArtifactCompileError::Canonical(_)),
                Some(d) => if d == self.artifact_sha256@ {
                    r is Ok
                } else {
                    r matches Err(ArtifactCompileError::IdentityMismatch { expected, actual })
                        && expected@ == self.artifact_sha256@ && actual@ == d
                },
            },
    {
        let actual = identity_of_parts(
            &self.schema,
            &self.entry,
            &self.modules,
            &self.plan,
            &self.validation_bundles,
            &self.guidance_schemas,
            &self.custom_codecs,
            &self.compatibility,
            &self.limits,
        )?;
        if str_eq(actual.as_str(), self.artifact_sha256.as_str()) {
            Ok(())
        } else {
            Err(ArtifactCompileError::IdentityMismatch { expected: self.artifact_sha256.clone(), actual })
        }
    }
}

} // verus!
