use orchestra_core::orchestra_control::effective_agent_max_depth;
use orchestra_core::orchestra_control::orchestra_developer_instructions;
use orchestra_core::orchestra_control::resolve_required_skill;
use orchestra_core::orchestra_control::skill_source_locator;
use orchestra_core::orchestra_control::skill_canonical_name;
use orchestra_core::orchestra_control::skill_source_kind;
use orchestra_core::orchestra_control::spawn_fork_mode;
use orchestra_core::orchestra_control::OrchestraError;
use orchestra_core::orchestra_control::OrchestraForkTurns;
use orchestra_core::orchestra_control::OrchestraSkillSourceKind;
use orchestra_core::orchestra_control::SpawnForkMode;
use orchestra_core::orchestra_control::SkillCandidate;
use orchestra_core::orchestra_control::SkillScope;

fn skill(name: &str, path: &str) -> SkillCandidate {
    SkillCandidate {
        name: name.to_string(),
        plugin_id: None,
        enabled: true,
        scope: SkillScope::User,
        path_to_skills_md: path.to_string(),
    }
}

fn message(result: Result<usize, OrchestraError>) -> String {
    match result {
        Ok(index) => panic!("unexpected skill {index}"),
        Err(OrchestraError::InvalidRequest(message)) => message,
    }
}

#[test]
fn structural_issue_task_reserves_one_native_child_level_only_when_requested() {
    assert_eq!(effective_agent_max_depth(1, 1, true, 0), 1);
    assert_eq!(effective_agent_max_depth(1, 1, true, 1), 2);
    assert_eq!(effective_agent_max_depth(4, 1, true, 1), 4);
    assert_eq!(effective_agent_max_depth(4, 2, false, 0), 2);
}

#[test]
fn descendant_depth_saturates_instead_of_overflowing() {
    assert_eq!(effective_agent_max_depth(3, i32::MAX, true, 5), i32::MAX);
}

#[test]
fn developer_instructions_append_the_skill_snapshot() {
    assert_eq!(
        orchestra_developer_instructions(None, "Do it".to_string()),
        "# Orchestra skill snapshot\n\nDo it"
    );
    assert_eq!(
        orchestra_developer_instructions(Some("Base".to_string()), "Do it".to_string()),
        "Base\n\n# Orchestra skill snapshot\n\nDo it"
    );
}

#[test]
fn required_skill_resolution_rejects_missing_disabled_and_ambiguous_names() {
    let mut skills = vec![skill("wayfinder", "/tmp/one/SKILL.md"), skill("wayfinder", "/tmp/two/SKILL.md")];
    assert!(message(resolve_required_skill(&skills, "missing", &Vec::new())).contains("not installed"));
    assert!(message(resolve_required_skill(&skills, "wayfinder", &Vec::new())).contains("ambiguous"));
    skills.pop();
    skills[0].enabled = false;
    assert!(message(resolve_required_skill(&skills, "wayfinder", &Vec::new())).contains("disabled"));
}

#[test]
fn qualified_plugin_skill_identity_disambiguates_plain_duplicates() {
    let one = skill("review", "/tmp/one/SKILL.md");
    let mut two = skill("review", "/tmp/two/SKILL.md");
    two.plugin_id = Some("plugin-two".to_string());
    let skills = vec![one, two];
    let resolved = resolve_required_skill(&skills, "plugin-two:review", &Vec::new());
    assert!(matches!(resolved, Ok(1)));
}

#[test]
fn plain_skill_names_reject_connector_collisions() {
    let skills = vec![skill("calendar", "/tmp/calendar/SKILL.md")];
    let connectors = vec!["calendar".to_string()];
    assert!(message(resolve_required_skill(&skills, "calendar", &connectors)).contains("collides with a connector"));
}

#[test]
fn repo_skill_locator_is_revision_qualified_and_checkout_independent() {
    let mut repo_skill = skill("review", "/tmp/checkout/.agents/skills/review/SKILL.md");
    repo_skill.scope = SkillScope::Repo;
    match skill_source_locator(&repo_skill, "/tmp/checkout", "abc123") {
        Ok(locator) => assert_eq!(locator, "git:abc123:.agents/skills/review/SKILL.md"),
        Err(_) => panic!("repo skill should be inside the checkout"),
    }
    let user_skill = skill("review", "/home/me/skills/review/SKILL.md");
    match skill_source_locator(&user_skill, "/tmp/checkout", "abc123") {
        Ok(locator) => assert_eq!(locator, "/home/me/skills/review/SKILL.md"),
        Err(_) => panic!("user skills are recorded by path"),
    }
    repo_skill.path_to_skills_md = "/elsewhere/SKILL.md".to_string();
    match skill_source_locator(&repo_skill, "/tmp/checkout", "abc123") {
        Ok(locator) => panic!("unexpected locator {locator}"),
        Err(OrchestraError::InvalidRequest(message)) => {
            assert_eq!(message, "repo skill `review` is outside the source-revision checkout")
        }
    }
}

fn fork_message(r: Result<Option<SpawnForkMode>, OrchestraError>) -> String {
    match r {
        Err(OrchestraError::InvalidRequest(m)) => m,
        Ok(_) => panic!("expected an error"),
    }
}

#[test]
fn fork_turns_select_the_spawn_history() {
    assert!(matches!(spawn_fork_mode(OrchestraForkTurns::NoTurns, false), Ok(None)));
    assert!(matches!(spawn_fork_mode(OrchestraForkTurns::All, true), Ok(Some(SpawnForkMode::FullHistory))));
    assert!(matches!(spawn_fork_mode(OrchestraForkTurns::Last(3), false), Ok(Some(SpawnForkMode::LastNTurns(3)))));
    assert_eq!(fork_message(spawn_fork_mode(OrchestraForkTurns::Last(0), true)), "fork_turns must be positive");
    assert_eq!(
        fork_message(spawn_fork_mode(OrchestraForkTurns::All, false)),
        "full-history Orchestra agents must inherit model and reasoning effort"
    );
}

#[test]
fn resolved_skills_record_scope_and_canonical_name() {
    assert_eq!(skill_source_kind(SkillScope::Admin), OrchestraSkillSourceKind::Admin);
    assert_eq!(skill_source_kind(SkillScope::User), OrchestraSkillSourceKind::User);
    assert_eq!(skill_source_kind(SkillScope::Repo), OrchestraSkillSourceKind::Repo);
    assert_eq!(skill_source_kind(SkillScope::System), OrchestraSkillSourceKind::System);
    let plugin = SkillCandidate {
        name: "tdd".into(),
        plugin_id: Some("superpowers".into()),
        enabled: true,
        scope: SkillScope::User,
        path_to_skills_md: "/skills/tdd/SKILL.md".into(),
    };
    assert_eq!(skill_canonical_name(&plugin), "superpowers:tdd");
    let plain = SkillCandidate { plugin_id: None, ..plugin };
    assert_eq!(skill_canonical_name(&plain), "tdd");
}
