//! Decisions the native Orchestra control makes for the tasks it spawns: the
//! agent depth a task may use, the skills a step requires, and where a skill's
//! source is recorded.
use crate::lexical::components_view;
use crate::lexical::join_components;
use crate::lexical::lexical_model;
use crate::lexical::lexical_view;
use crate::lexical::path_model;
use crate::lexical::LexicalPath;
use crate::lexical::render_lexical;
use crate::lexical::render_path;
use crate::automation_validate::model_starts_with;
use crate::automation_validate::model_starts_with_exec;
use crate::text::concat;
use crate::text::contains_char;
use crate::text::str_chars;
use crate::text::str_eq;
use crate::text::string_from_chars;
use vstd::prelude::*;

verus! {

/// `a + b` clamped to the range of `i32`, as `i32::saturating_add` computes it.
pub open spec fn saturating_add_spec(a: i32, b: i32) -> i32 {
    if a + b > i32::MAX {
        i32::MAX
    } else if a + b < i32::MIN {
        i32::MIN
    } else {
        (a + b) as i32
    }
}

/// The agent depth an Orchestra task may use: a task that may not delegate keeps
/// its own depth; one that requires descendants gets at least enough depth for
/// them; otherwise the configured depth stands.
pub open spec fn effective_depth_spec(configured: i32, child_depth: i32, allow_delegation: bool, minimum_descendant_depth: i32) -> i32 {
    if !allow_delegation {
        child_depth
    } else if minimum_descendant_depth > 0 {
        let wanted = saturating_add_spec(child_depth, minimum_descendant_depth);
        if configured >= wanted { configured } else { wanted }
    } else {
        configured
    }
}

pub fn effective_agent_max_depth(configured: i32, child_depth: i32, allow_delegation: bool, minimum_descendant_depth: i32) -> (r: i32)
    ensures
        r == effective_depth_spec(configured, child_depth, allow_delegation, minimum_descendant_depth),
{
    if !allow_delegation {
        child_depth
    } else if minimum_descendant_depth > 0 {
        let sum: i64 = child_depth as i64 + minimum_descendant_depth as i64;
        let wanted: i32 = if sum > i32::MAX as i64 {
            i32::MAX
        } else if sum < i32::MIN as i64 {
            i32::MIN
        } else {
            sum as i32
        };
        if configured >= wanted {
            configured
        } else {
            wanted
        }
    } else {
        configured
    }
}

/// A task never gains depth by refusing delegation, and one that requires
/// descendants always has room for them below its own level (unless the sum
/// saturates).
pub proof fn lemma_required_descendants_fit(configured: i32, child_depth: i32, minimum_descendant_depth: i32)
    requires
        minimum_descendant_depth > 0,
        child_depth + minimum_descendant_depth <= i32::MAX,
    ensures
        effective_depth_spec(configured, child_depth, true, minimum_descendant_depth) >= child_depth + minimum_descendant_depth,
        effective_depth_spec(configured, child_depth, true, minimum_descendant_depth) >= configured,
        effective_depth_spec(configured, child_depth, false, minimum_descendant_depth) == child_depth,
{
}

/// The developer instructions of an Orchestra task: any existing instructions,
/// then the skill snapshot section holding the prompt.
pub open spec fn developer_instructions_spec(existing: Option<Seq<char>>, prompt: Seq<char>) -> Seq<char> {
    let orchestra = "# Orchestra skill snapshot\n\n"@ + prompt;
    match existing {
        Some(e) => e + "\n\n"@ + orchestra,
        None => orchestra,
    }
}

pub fn orchestra_developer_instructions(existing: Option<String>, prompt: String) -> (r: String)
    ensures
        r@ == developer_instructions_spec(
            match existing {
                Some(e) => Some(e@),
                None => None,
            },
            prompt@,
        ),
{
    let orchestra = concat("# Orchestra skill snapshot\n\n", prompt.as_str());
    match existing {
        Some(e) => concat(concat(e.as_str(), "\n\n").as_str(), orchestra.as_str()),
        None => orchestra,
    }
}

/// An error Orchestra reports to the requesting task.
pub enum OrchestraError {
    InvalidRequest(String),
}

/// Where a skill was installed from.
#[derive(Clone, Copy, Debug, PartialEq, Eq, Structural)]
pub enum SkillScope {
    User,
    Repo,
    System,
    Admin,
}

/// What skill resolution reads of an installed skill.
pub struct SkillCandidate {
    pub name: String,
    pub plugin_id: Option<String>,
    pub enabled: bool,
    pub scope: SkillScope,
    pub path_to_skills_md: String,
}

/// A skill's canonical name: `plugin:name` for plugin skills, else its name.
pub open spec fn canonical_skill_name(s: SkillCandidate) -> Seq<char> {
    match s.plugin_id {
        Some(p) => p@ + ":"@ + s.name@,
        None => s.name@,
    }
}

/// A qualified requirement names a canonical name; a plain one names a skill name.
pub open spec fn skill_matches(s: SkillCandidate, requirement: Seq<char>) -> bool {
    if requirement.contains(':') {
        canonical_skill_name(s) == requirement
    } else {
        s.name@ == requirement
    }
}

pub open spec fn enabled_match(skills: Seq<SkillCandidate>, requirement: Seq<char>, i: int) -> bool {
    0 <= i < skills.len() && skill_matches(skills[i], requirement) && skills[i].enabled
}

pub open spec fn some_match(skills: Seq<SkillCandidate>, requirement: Seq<char>) -> bool {
    exists|i: int| 0 <= i < skills.len() && skill_matches(#[trigger] skills[i], requirement)
}

pub open spec fn texts_contain(v: Seq<String>, x: Seq<char>) -> bool {
    exists|i: int| 0 <= i < v.len() && (#[trigger] v[i])@ == x
}

pub open spec fn connector_collision(connector_slugs: Seq<String>, requirement: Seq<char>) -> bool {
    !requirement.contains(':') && texts_contain(connector_slugs, requirement)
}

/// Resolves a required skill to the one enabled skill it names. A plain name that
/// is also a connector, a name that matches nothing, only disabled skills, or
/// several enabled skills is an error.
pub fn resolve_required_skill(
    skills: &Vec<SkillCandidate>,
    requirement: &str,
    connector_slugs: &Vec<String>,
) -> (r: Result<usize, OrchestraError>)
    ensures
        match r {
            Ok(i) => {
                &&& !connector_collision(connector_slugs@, requirement@)
                &&& enabled_match(skills@, requirement@, i as int)
                &&& forall|j: int| #[trigger] enabled_match(skills@, requirement@, j) ==> j == i
            },
            Err(OrchestraError::InvalidRequest(m)) => {
                if connector_collision(connector_slugs@, requirement@) {
                    m@ == "required skill `"@ + requirement@ + "` collides with a connector; use a qualified name"@
                } else if exists|j: int, k: int| j != k && #[trigger] enabled_match(skills@, requirement@, j) && #[trigger] enabled_match(skills@, requirement@, k) {
                    m@ == "required skill `"@ + requirement@ + "` is ambiguous; use its qualified name"@
                } else {
                    &&& forall|j: int| !#[trigger] enabled_match(skills@, requirement@, j)
                    &&& if some_match(skills@, requirement@) {
                        m@ == "required skill `"@ + requirement@ + "` is disabled"@
                    } else {
                        m@ == "required skill `"@ + requirement@ + "` is not installed"@
                    }
                }
            },
        },
{
    let qualified = contains_char(requirement, ':');
    if !qualified {
        let mut j: usize = 0;
        while j < connector_slugs.len()
            invariant
                j <= connector_slugs@.len(),
                qualified == requirement@.contains(':'),
                !qualified,
                forall|k: int| 0 <= k < j ==> connector_slugs@[k]@ != requirement@,
            decreases connector_slugs.len() - j,
        {
            if str_eq(connector_slugs[j].as_str(), requirement) {
                proof {
                    assert(connector_slugs@[j as int]@ == requirement@);
                }
                let m = concat(
                    concat("required skill `", requirement).as_str(),
                    "` collides with a connector; use a qualified name",
                );
                return Err(OrchestraError::InvalidRequest(m));
            }
            j = j + 1;
        }
    }
    proof {
        if !qualified {
            assert forall|k: int| 0 <= k < connector_slugs@.len() implies (#[trigger] connector_slugs@[k])@ != requirement@ by {}
        }
    }
    let mut matched: bool = false;
    let mut enabled: Vec<usize> = Vec::new();
    let mut i: usize = 0;
    while i < skills.len()
        invariant
            i <= skills@.len(),
            qualified == requirement@.contains(':'),
            matched <==> (exists|k: int| 0 <= k < i && skill_matches(#[trigger] skills@[k], requirement@)),
            forall|k: int| 0 <= k < enabled@.len() ==> (#[trigger] enabled@[k]) < i && enabled_match(skills@, requirement@, enabled@[k] as int),
            forall|k: int, l: int| 0 <= k < l < enabled@.len() ==> enabled@[k] < enabled@[l],
            forall|x: int| 0 <= x < i && #[trigger] enabled_match(skills@, requirement@, x)
                ==> exists|k: int| 0 <= k < enabled@.len() && enabled@[k] as int == x,
        decreases skills.len() - i,
    {
        let s = &skills[i];
        let is_match = if qualified {
            match &s.plugin_id {
                Some(p) => {
                    let c = concat(concat(p.as_str(), ":").as_str(), s.name.as_str());
                    str_eq(c.as_str(), requirement)
                },
                None => str_eq(s.name.as_str(), requirement),
            }
        } else {
            str_eq(s.name.as_str(), requirement)
        };
        proof {
            assert(is_match == skill_matches(skills@[i as int], requirement@));
        }
        if is_match {
            matched = true;
            if s.enabled {
                let ghost before = enabled@;
                enabled.push(i);
                proof {
                    assert forall|x: int| 0 <= x < i + 1 && #[trigger] enabled_match(skills@, requirement@, x)
                        implies exists|k: int| 0 <= k < enabled@.len() && enabled@[k] as int == x by {
                        if x == i {
                            assert(enabled@[before.len() as int] as int == x);
                        } else {
                            let k = choose|k: int| 0 <= k < before.len() && before[k] as int == x;
                            assert(enabled@[k] as int == x);
                        }
                    }
                }
            }
        }
        i = i + 1;
    }
    if enabled.len() == 1 {
        proof {
            assert forall|j: int| #[trigger] enabled_match(skills@, requirement@, j) implies j == enabled@[0] as int by {
                let k = choose|k: int| 0 <= k < enabled@.len() && enabled@[k] as int == j;
            }
            assert(enabled_match(skills@, requirement@, enabled@[0] as int));
        }
        Ok(enabled[0])
    } else if enabled.len() == 0 {
        proof {
            assert forall|j: int| !#[trigger] enabled_match(skills@, requirement@, j) by {
                if enabled_match(skills@, requirement@, j) {
                    let k = choose|k: int| 0 <= k < enabled@.len() && enabled@[k] as int == j;
                }
            }
            if matched {
                let k = choose|k: int| 0 <= k < i && skill_matches(#[trigger] skills@[k], requirement@);
                assert(some_match(skills@, requirement@));
            }
        }
        if matched {
            let m = concat(concat("required skill `", requirement).as_str(), "` is disabled");
            Err(OrchestraError::InvalidRequest(m))
        } else {
            let m = concat(concat("required skill `", requirement).as_str(), "` is not installed");
            Err(OrchestraError::InvalidRequest(m))
        }
    } else {
        proof {
            assert(enabled_match(skills@, requirement@, enabled@[0] as int));
            assert(enabled_match(skills@, requirement@, enabled@[1] as int));
            assert(enabled@[0] < enabled@[1]);
        }
        let m = concat(concat("required skill `", requirement).as_str(), "` is ambiguous; use its qualified name");
        Err(OrchestraError::InvalidRequest(m))
    }
}


/// Where a skill's source is recorded: its file for user, system and admin skills;
/// for a repository skill, its path inside the checkout qualified by the source
/// revision, so that the locator does not depend on where the checkout lives.
pub open spec fn skill_locator_spec(skill: SkillCandidate, cwd: Seq<char>, source_revision: Seq<char>) -> Option<Seq<char>> {
    if skill.scope != SkillScope::Repo {
        Some(skill.path_to_skills_md@)
    } else {
        let p = path_model(skill.path_to_skills_md@);
        let c = path_model(cwd);
        if model_starts_with(p, c) {
            Some("git:"@ + source_revision + ":"@ + join_components(p.1.skip(c.1.len() as int)))
        } else {
            None
        }
    }
}

pub fn skill_source_locator(skill: &SkillCandidate, cwd: &str, source_revision: &str) -> (r: Result<String, OrchestraError>)
    ensures
        match r {
            Ok(l) => skill_locator_spec(*skill, cwd@, source_revision@) == Some(l@),
            Err(OrchestraError::InvalidRequest(m)) => skill_locator_spec(*skill, cwd@, source_revision@) is None
                && m@ == "repo skill `"@ + skill.name@ + "` is outside the source-revision checkout"@,
        },
{
    if skill.scope != SkillScope::Repo {
        return Ok(skill.path_to_skills_md.clone());
    }
    let p = lexical_model(&str_chars(skill.path_to_skills_md.as_str()));
    let c = lexical_model(&str_chars(cwd));
    if !model_starts_with_exec(&p, &c) {
        let m = concat(concat("repo skill `", skill.name.as_str()).as_str(), "` is outside the source-revision checkout");
        return Err(OrchestraError::InvalidRequest(m));
    }
    let mut comps = p.components;
    let rest = comps.split_off(c.components.len());
    let relative = LexicalPath { absolute: false, components: rest };
    let text = render_lexical(&relative);
    proof {
        assert(components_view(rest@) =~= components_view(p.components@).skip(c.components@.len() as int));
    }
    Ok(concat(concat(concat("git:", source_revision).as_str(), ":").as_str(), text.as_str()))
}

/// How many of the parent's turns a spawned task is forked with.
#[derive(Clone, Copy, Debug, PartialEq, Eq, Structural)]
pub enum OrchestraForkTurns {
    NoTurns,
    All,
    Last(usize),
}

/// The history a spawned agent starts from.
#[derive(Clone, Copy, Debug, PartialEq, Eq, Structural)]
pub enum SpawnForkMode {
    FullHistory,
    LastNTurns(usize),
}

/// The fork mode a spawn request asks for; a full-history fork must keep the
/// parent's model and reasoning effort.
pub open spec fn fork_mode_spec(turns: OrchestraForkTurns, same_model_and_effort: bool) -> Result<Option<SpawnForkMode>, Seq<char>> {
    match turns {
        OrchestraForkTurns::NoTurns => Ok(None),
        OrchestraForkTurns::All => if same_model_and_effort {
            Ok(Some(SpawnForkMode::FullHistory))
        } else {
            Err("full-history Orchestra agents must inherit model and reasoning effort"@)
        },
        OrchestraForkTurns::Last(n) => if n > 0 {
            Ok(Some(SpawnForkMode::LastNTurns(n)))
        } else {
            Err("fork_turns must be positive"@)
        },
    }
}

/// Decides the fork mode of a spawn (see `fork_mode_spec`). The caller says
/// whether the request's model and reasoning effort are the parent's.
pub fn spawn_fork_mode(turns: OrchestraForkTurns, same_model_and_effort: bool) -> (r: Result<Option<SpawnForkMode>, OrchestraError>)
    ensures
        match fork_mode_spec(turns, same_model_and_effort) {
            Ok(m) => r == Ok::<Option<SpawnForkMode>, OrchestraError>(m),
            Err(msg) => r matches Err(OrchestraError::InvalidRequest(x)) && x@ == msg,
        },
{
    match turns {
        OrchestraForkTurns::NoTurns => Ok(None),
        OrchestraForkTurns::All => if same_model_and_effort {
            Ok(Some(SpawnForkMode::FullHistory))
        } else {
            Err(OrchestraError::InvalidRequest(crate::text::to_owned_string("full-history Orchestra agents must inherit model and reasoning effort")))
        },
        OrchestraForkTurns::Last(n) => if n > 0 {
            Ok(Some(SpawnForkMode::LastNTurns(n)))
        } else {
            Err(OrchestraError::InvalidRequest(crate::text::to_owned_string("fork_turns must be positive")))
        },
    }
}

/// What a command run for a task returned.
pub struct OrchestraCommandOutput {
    pub exit_code: i32,
    pub stdout: String,
    pub stderr: String,
}

/// A skill a step requires, with the resource files it reads.
pub struct OrchestraSkillRequirement {
    pub name: String,
    pub resources: Vec<String>,
}

/// Where a resolved skill was installed.
#[derive(Clone, Copy, Debug, PartialEq, Eq, Structural)]
pub enum OrchestraSkillSourceKind {
    Admin,
    User,
    Repo,
    System,
}

pub open spec fn source_kind_of(scope: SkillScope) -> OrchestraSkillSourceKind {
    match scope {
        SkillScope::Admin => OrchestraSkillSourceKind::Admin,
        SkillScope::User => OrchestraSkillSourceKind::User,
        SkillScope::Repo => OrchestraSkillSourceKind::Repo,
        SkillScope::System => OrchestraSkillSourceKind::System,
    }
}

/// The source kind recorded for a skill of the given scope.
pub fn skill_source_kind(scope: SkillScope) -> (r: OrchestraSkillSourceKind)
    ensures
        r == source_kind_of(scope),
{
    match scope {
        SkillScope::Admin => OrchestraSkillSourceKind::Admin,
        SkillScope::User => OrchestraSkillSourceKind::User,
        SkillScope::Repo => OrchestraSkillSourceKind::Repo,
        SkillScope::System => OrchestraSkillSourceKind::System,
    }
}

/// A tool a skill depends on.
pub struct OrchestraSkillToolDependency {
    pub kind: String,
    pub value: String,
    pub description: Option<String>,
    pub transport: Option<String>,
    pub command: Option<String>,
    pub url: Option<String>,
}

/// A required skill as resolved: its snapshot and where it came from. The
/// resources are `(path, bytes)` pairs in ascending path order.
pub struct OrchestraResolvedSkill {
    pub requirement: String,
    pub canonical_name: String,
    pub source_kind: OrchestraSkillSourceKind,
    pub source_locator: String,
    pub plugin_id: Option<String>,
    pub instructions: Vec<u8>,
    pub resources: Vec<(String, Vec<u8>)>,
    pub tool_dependencies: Vec<OrchestraSkillToolDependency>,
}

/// A skill's canonical name (see `canonical_skill_name`).
pub fn skill_canonical_name(skill: &SkillCandidate) -> (r: String)
    ensures
        r@ == canonical_skill_name(*skill),
{
    match &skill.plugin_id {
        Some(p) => concat(concat(p.as_str(), ":").as_str(), skill.name.as_str()),
        None => crate::text::to_owned_string(skill.name.as_str()),
    }
}

} // verus!
