use orchestra_core::inputs::write_json;
use orchestra_core::parser::ast_to_json;
use orchestra_core::parser::parse_workflow;
use orchestra_core::compiler::CompileError;
use orchestra_core::parser::Ast;
use orchestra_core::json::JsonValue;
use orchestra_core::lowering::lower_workflow;
use orchestra_core::lowering::Lowered;
use orchestra_core::plan::WorktreePolicy;

fn err<T>(result: Result<T, CompileError>) -> CompileError {
    match result {
        Ok(_) => panic!("expected an error"),
        Err(error) => error,
    }
}

fn valid() -> String {
    r#"import { workflow, agent, pipeline, parallel, check, approval, worktree, repeat } from "@codex-orchestra/workflow";
export default workflow({ name: "slice", max_parallel: 2, steps: [pipeline([
  agent({ id: "plan", prompt: "Plan", model: "gpt-5.4", outputs: ["ok"] }),
  parallel([
    agent({ id: "write", prompt: `Use ${steps.plan.outputs.ok}`, model: "gpt-5.4", reasoning_effort: "high", write_scope: ["src/"], worktree: "isolated" }),
    check({ id: "lint", command: ["cargo", "fmt", "--check"] })
  ]),
  approval({ id: "accept", prompt: "Accept?", choices: ["yes", "no"] })
]) ] });"#
        .into()
}

fn json_text(ast: &Ast) -> String {
    let mut out = String::new();
    write_json(&ast_to_json(ast).unwrap(), &mut out);
    out
}

#[test]
fn parses_the_workflow_call_and_its_static_argument() {
    let ast = match parse_workflow(&valid()) {
        Ok(ast) => ast,
        Err(error) => panic!("{}", error.message),
    };
    let Ast::Call(name, args) = &ast else { panic!("expected a call") };
    assert_eq!(name, "workflow");
    assert_eq!(args.len(), 1);
    let Ast::Object(entries) = &args[0] else { panic!("expected an object") };
    assert_eq!(entries[0].0, "name");
    assert_eq!(entries[1].0, "max_parallel");
    assert!(matches!(entries[1].1, Ast::Integer(2)));
    assert_eq!(entries[2].0, "steps");
}

#[test]
fn rejects_arbitrary_typescript_and_side_effects() {
    for source in [
        "import { workflow } from '@codex-orchestra/workflow'; export default (() => workflow({name:'x',steps:[]}))();",
        "import fs from 'node:fs'; export default fs.readFileSync('/etc/passwd');",
        "import { workflow } from '@codex-orchestra/workflow'; process.exit(); export default workflow({name:'x',steps:[]});",
        "import { workflow } from '@codex-orchestra/workflow'; export default workflow({name:'x',steps:[]}); fetch('https://x');",
        "import { workflow } from '@codex-orchestra/workflow'; export default eval('x');",
        "import { workflow } from '@codex-orchestra/workflow'; export default import('./x');",
        "import { workflow } from '@codex-orchestra/workflow'; export default workflow({name:'x',steps:[function(){}]});",
    ] {
        assert!(parse_workflow(source).is_err(), "accepted {source}");
    }
}

#[test]
fn rejects_computed_template_expressions() {
    let source = valid().replace("steps.plan.outputs.ok", "process.env.SECRET");
    assert!(err(parse_workflow(&source)).message.contains("templates may reference only"));
}

#[test]
fn reports_the_offending_token() {
    let error = err(parse_workflow("import { workflow } from '@codex-orchestra/workflow'; export default eval('x');"));
    assert_eq!(error.message, "reference to non-Orchestra identifier `eval` is not allowed");
    assert_eq!(error.offset, 69);
    let error = err(parse_workflow("import { workflow as w } from '@codex-orchestra/workflow';"));
    assert_eq!(error.message, "import aliases are not allowed");
    let error = err(parse_workflow("import { workflow } from 'other'; export default workflow({});"));
    assert_eq!(error.message, "workflow may import only `@codex-orchestra/workflow`");
}

#[test]
fn static_values_lower_to_json_and_refs_to_templates() {
    let ast = parse_workflow(
        r#"import { workflow, ref } from "@codex-orchestra/workflow";
export default workflow({ b: [1, -2, 1.5, true, null], a: ref("inputs.ticket") });"#,
    )
    .unwrap();
    let Ast::Call(_, args) = &ast else { panic!("expected a call") };
    assert_eq!(json_text(&args[0]), "{\"a\":\"${inputs.ticket}\",\"b\":[1,-2,1.5,true,null]}");
    let duplicate = parse_workflow(
        r#"import { workflow } from "@codex-orchestra/workflow";
export default workflow({ a: 1, a: 2 });"#,
    )
    .unwrap();
    let Ast::Call(_, args) = &duplicate else { panic!("expected a call") };
    assert_eq!(err(ast_to_json(&args[0])).message, "duplicate object key `a`");
    assert_eq!(
        err(ast_to_json(&duplicate)).message,
        "DSL call `workflow` is not valid in this value"
    );
}

fn member<'a>(value: &'a JsonValue, key: &str) -> &'a JsonValue {
    match value {
        JsonValue::Object(members) => &members.iter().find(|(k, _)| k == key).expect("member").1,
        _ => panic!("expected an object"),
    }
}

fn text(value: &JsonValue) -> &str {
    match value {
        JsonValue::String(s) => s,
        _ => panic!("expected a string"),
    }
}

#[test]
fn lowers_steps_to_their_data_and_keeps_combinators() {
    let ast = parse_workflow(&valid()).unwrap_or_else(|error| panic!("{}", error.message));
    let (nodes, fields) = match lower_workflow(ast) {
        Ok(parts) => parts,
        Err(error) => panic!("{}", error.message),
    };
    assert_eq!(nodes.len(), 1);
    let Lowered::Group(true, stages) = &nodes[0] else { panic!("expected a pipeline") };
    assert_eq!(stages.len(), 3);
    let Lowered::Step(plan) = &stages[0] else { panic!("expected a step") };
    assert_eq!(text(member(plan, "kind")), "agent");
    assert_eq!(text(member(plan, "id")), "plan");
    let Lowered::Group(false, parallel) = &stages[1] else { panic!("expected a parallel group") };
    assert_eq!(parallel.len(), 2);
    let Lowered::Step(lint) = &parallel[1] else { panic!("expected a step") };
    assert_eq!(text(member(lint, "kind")), "check");
    let mut out = String::new();
    write_json(&fields, &mut out);
    assert_eq!(out, r#"{"max_parallel":2,"name":"slice"}"#);
}

#[test]
fn lowering_names_the_first_structural_error() {
    let lower = |source: &str| match lower_workflow(parse_workflow(source).unwrap_or_else(|e| panic!("{}", e.message))) {
        Ok(_) => panic!("expected an error"),
        Err(error) => error,
    };
    let head = "import { workflow, agent, worktree, repeat } from \"@codex-orchestra/workflow\"; export default ";
    assert_eq!(lower(&format!("{head}workflow({{ name: \"x\" }});")).message, "workflow requires `steps`");
    assert_eq!(lower(&format!("{head}workflow({{ name: \"x\", steps: 1 }});")).message, "workflow `steps` must be an array");
    assert_eq!(lower(&format!("{head}agent({{ id: \"a\" }});")).message, "default export must be one workflow call with one object argument");
    assert_eq!(lower(&format!("{head}workflow({{ steps: [agent(1)] }});")).message, "`agent` expects an object");
    assert_eq!(lower(&format!("{head}workflow({{ steps: [worktree(agent({{}}), \"remote\")] }});")).message, "invalid worktree policy");
    assert_eq!(lower(&format!("{head}workflow({{ steps: [repeat(agent({{}}))] }});")).message, "`repeat` expects a step and policy object");
    assert_eq!(lower(&format!("{head}workflow({{ steps: [\"x\"] }});")).message, "steps must be Orchestra DSL calls");
    assert_eq!(lower(&format!("{head}workflow({{ steps: [workflow({{}})] }});")).message, "`workflow` is not valid in a step list");
    let worktree = lower_workflow(parse_workflow(&format!("{head}workflow({{ steps: [worktree(agent({{ id: \"a\" }}), \"isolated\")] }});")).unwrap_or_else(|e| panic!("{}", e.message)));
    match worktree {
        Ok((nodes, _)) => assert!(matches!(&nodes[0], Lowered::Worktree(_, WorktreePolicy::Isolated))),
        Err(error) => panic!("{}", error.message),
    }
}
