use orchestra_core::context::append_section;
use orchestra_core::context::contained;
use orchestra_core::context::context_label;
use orchestra_core::context::dependency_output;
use orchestra_core::context::diff_args;
use orchestra_core::context::finish_bundle;
use orchestra_core::context::input_body;
use orchestra_core::context::range_body;
use orchestra_core::context::revision_guard;
use orchestra_core::context::ContextBundle;
use orchestra_core::context::ContextError;
use orchestra_core::inputs::write_json;
use orchestra_core::json::JsonValue;
use orchestra_core::plan::ContextSource;

/// Frames the given sources the way a step's context is materialized, with the
/// file text standing in for what is read from the repository.
fn materialize(
    file_text: &str,
    sources: &[ContextSource],
    outputs: &Vec<(String, Vec<(String, JsonValue)>)>,
    inputs: &Vec<(String, JsonValue)>,
) -> Result<ContextBundle, ContextError> {
    let mut content = String::new();
    let mut labels = Vec::new();
    for source in sources {
        let label = context_label(source);
        let body = match source {
            ContextSource::File { .. } => file_text.to_string(),
            ContextSource::Range { path, start, end } => range_body(path, file_text, *start, *end)?,
            ContextSource::DependencyOutput { step, output } => {
                let mut text = String::new();
                write_json(dependency_output(outputs, step, output)?, &mut text);
                text
            }
            ContextSource::Input { input } => input_body(inputs, input)?,
            ContextSource::Revision { revision, path } => {
                revision_guard(revision, path)?;
                String::new()
            }
            ContextSource::Diff { .. } => String::new(),
        };
        labels.push(label.clone());
        append_section(&mut content, &label, &body);
    }
    Ok(finish_bundle(content, labels))
}

#[test]
fn ranges_and_dependency_outputs_are_exact_and_hashed() {
    let outputs = vec![("plan".to_string(), vec![("answer".to_string(), JsonValue::Number("42".into()))])];
    let sources = vec![
        ContextSource::Range { path: "a.txt".into(), start: 2, end: 3 },
        ContextSource::DependencyOutput { step: "plan".into(), output: "answer".into() },
    ];
    let one = materialize("one\ntwo\nthree\n", &sources, &outputs, &Vec::new()).unwrap();
    let two = materialize("one\ntwo\nthree\n", &sources, &outputs, &Vec::new()).unwrap();
    assert_eq!(one.sha256, two.sha256);
    assert!(one.content.contains("two\nthree"));
    assert!(!one.content.contains("one\n"));
    assert_eq!(one.sources, vec!["range:a.txt:2-3", "output:plan.answer"]);
}

#[test]
fn run_inputs_are_materialized_as_exact_context() {
    let inputs = vec![
        ("metadata".to_string(), JsonValue::Object(vec![("kind".to_string(), JsonValue::String("issue".into()))])),
        ("ticket".to_string(), JsonValue::String("#3".into())),
    ];
    let sources = vec![ContextSource::Input { input: "ticket".into() }, ContextSource::Input { input: "metadata".into() }];
    let context = materialize("", &sources, &Vec::new(), &inputs).unwrap();
    assert!(context.content.contains("<<< ORCHESTRA CONTEXT input:ticket >>>\n#3"));
    assert!(context.content.contains(r#"{"kind":"issue"}"#));
}

#[test]
fn symlinks_cannot_escape_repository() {
    assert!(matches!(contained("/tmp/repo", "/etc/passwd", "escape"), Err(ContextError::PathEscape(path)) if path == "escape"));
    assert!(contained("/tmp/repo", "/tmp/repo/src/a.txt", "src/a.txt").is_ok());
    assert!(contained("/tmp/repo", "/tmp/repository/a.txt", "../repository/a.txt").is_err());
}

#[test]
fn ranges_outside_the_file_are_errors() {
    assert!(matches!(range_body("a.txt", "one\n", 0, 1), Err(ContextError::Range { start: 0, end: 1, .. })));
    assert!(matches!(range_body("a.txt", "one\n", 2, 1), Err(ContextError::Range { .. })));
    assert!(matches!(range_body("a.txt", "one\n", 1, 2), Err(ContextError::Range { .. })));
    assert_eq!(range_body("a.txt", "one\r\ntwo", 1, 2).unwrap(), "one\ntwo\n");
}

#[test]
fn sections_are_framed_and_labelled() {
    let mut content = String::new();
    append_section(&mut content, "file:a", "body");
    assert_eq!(content, "<<< ORCHESTRA CONTEXT file:a >>>\nbody\n<<< END ORCHESTRA CONTEXT file:a >>>\n");
    let label = context_label(&ContextSource::Diff { from: "a".into(), to: "b".into(), paths: vec!["x".into(), "y".into()] });
    assert_eq!(label, "diff:a..b:x,y");
    assert_eq!(diff_args("a", "b", &vec!["x".into()]), vec!["diff", "--no-ext-diff", "--binary", "a", "b", "--", "x"]);
    assert!(matches!(revision_guard("-x", "p"), Err(ContextError::Git(_))));
    assert!(matches!(input_body(&Vec::new(), "missing"), Err(ContextError::MissingInput(name)) if name == "missing"));
}
