use orchestra_core::inputs::canonicalize;
use orchestra_core::inputs::inputs_digest;
use orchestra_core::inputs::kind_name;
use orchestra_core::inputs::render_value;
use orchestra_core::inputs::resolve_inputs;
use orchestra_core::inputs::resolve_template;
use orchestra_core::inputs::value_matches;
use orchestra_core::inputs::verify_inputs;
use orchestra_core::inputs::write_json;
use orchestra_core::inputs::InputError;
use orchestra_core::json::json_eq;
use orchestra_core::json::JsonValue;
use orchestra_core::plan::InputDefault;
use orchestra_core::plan::InputDefinition;
use orchestra_core::plan::InputKind;

fn s(text: &str) -> JsonValue {
    JsonValue::String(text.to_string())
}

fn n(text: &str) -> JsonValue {
    JsonValue::Number(text.to_string())
}

fn obj(members: Vec<(&str, JsonValue)>) -> JsonValue {
    JsonValue::Object(members.into_iter().map(|(k, v)| (k.to_string(), v)).collect())
}

fn definition(kind: InputKind, required: bool, default: InputDefault) -> InputDefinition {
    InputDefinition { kind, required, default }
}

fn text(value: &JsonValue) -> String {
    let mut out = String::new();
    write_json(value, &mut out);
    out
}

/// The same value as a `serde_json::Value`, whose members serde_json keeps in key order.
fn to_serde(value: &JsonValue) -> serde_json::Value {
    match value {
        JsonValue::Null => serde_json::Value::Null,
        JsonValue::Bool(b) => serde_json::Value::Bool(*b),
        JsonValue::Number(t) => serde_json::from_str(t).unwrap(),
        JsonValue::String(s) => serde_json::Value::String(s.clone()),
        JsonValue::Array(xs) => serde_json::Value::Array(xs.iter().map(to_serde).collect()),
        JsonValue::Object(ms) => {
            let mut map = serde_json::Map::new();
            for (k, v) in ms {
                map.insert(k.clone(), to_serde(v));
            }
            serde_json::Value::Object(map)
        }
    }
}

#[test]
fn resolves_required_default_optional_and_nested_canonical_values() {
    let definitions = vec![
        ("base".to_string(), definition(InputKind::String, true, InputDefault::Value(s("main")))),
        ("notes".to_string(), definition(InputKind::Object, false, InputDefault::Missing)),
        ("ticket".to_string(), definition(InputKind::String, true, InputDefault::Missing)),
    ];
    let one_input = obj(vec![
        ("notes", obj(vec![("a", obj(vec![("b", n("3")), ("y", n("2"))])), ("z", n("1"))])),
        ("ticket", s("#3")),
    ]);
    let two_input = obj(vec![
        ("notes", obj(vec![("z", n("1")), ("a", obj(vec![("y", n("2")), ("b", n("3"))]))])),
        ("ticket", s("#3")),
    ]);
    let one = resolve_inputs(&definitions, Some(&one_input)).unwrap();
    let two = resolve_inputs(&definitions, Some(&two_input)).unwrap();
    assert_eq!(one.sha256, two.sha256);
    assert_eq!(one.values.len(), two.values.len());
    for (a, b) in one.values.iter().zip(two.values.iter()) {
        assert_eq!(a.0, b.0);
        assert!(json_eq(&a.1, &b.1));
    }
    assert_eq!(one.values[0].0, "base");
    assert!(matches!(&one.values[0].1, JsonValue::String(value) if value == "main"));
}

#[test]
fn rejects_missing_unknown_and_wrong_typed_values() {
    let definitions = vec![("ticket".to_string(), definition(InputKind::String, true, InputDefault::Missing))];
    assert!(matches!(resolve_inputs(&definitions, None), Err(InputError::Missing(name)) if name == "ticket"));
    assert!(matches!(
        resolve_inputs(&definitions, Some(&obj(vec![("other", n("1"))]))),
        Err(InputError::Unknown(name)) if name == "other"
    ));
    assert!(matches!(
        resolve_inputs(&definitions, Some(&obj(vec![("ticket", n("3"))]))),
        Err(InputError::WrongType { name, .. }) if name == "ticket"
    ));
    assert!(matches!(resolve_inputs(&definitions, Some(&s("x"))), Err(InputError::NotObject)));
}

#[test]
fn resolves_input_templates_and_preserves_reserved_output_templates() {
    let inputs = vec![
        ("flags".to_string(), JsonValue::Array(vec![s("one"), s("two")])),
        ("ticket".to_string(), s("#3")),
    ];
    let outputs = vec![("plan".to_string(), vec![("summary".to_string(), s("ready"))])];
    assert_eq!(
        resolve_template(
            "Implement ${inputs.ticket} with ${inputs.flags}: ${steps.plan.outputs.summary}",
            &inputs,
            &outputs,
        )
        .unwrap(),
        "Implement #3 with [\"one\",\"two\"]: ready"
    );
}

#[test]
fn template_references_fail_closed() {
    let inputs = vec![("ticket".to_string(), s("#3"))];
    let outputs = Vec::new();
    assert!(matches!(resolve_template("${inputs.ticket", &inputs, &outputs), Err(InputError::UnterminatedReference)));
    assert!(matches!(
        resolve_template("${inputs.other}", &inputs, &outputs),
        Err(InputError::UnknownReference(name)) if name == "other"
    ));
    assert!(matches!(
        resolve_template("${steps.plan.outputs.summary}", &inputs, &outputs),
        Err(InputError::UnknownReference(reference)) if reference == "steps.plan.outputs.summary"
    ));
    assert!(matches!(
        resolve_template("${env.HOME}", &inputs, &outputs),
        Err(InputError::UnsupportedReference(reference)) if reference == "env.HOME"
    ));
    assert_eq!(resolve_template("no references", &inputs, &outputs).unwrap(), "no references");
}

#[test]
fn compact_text_matches_serde_json() {
    let value = obj(vec![
        ("quote", s("a\"b\\c\n\t\u{1}\u{7f}é")),
        ("list", JsonValue::Array(vec![JsonValue::Null, JsonValue::Bool(true), n("-1.5")])),
        ("empty", obj(vec![])),
    ]);
    assert_eq!(text(&canonicalize(&value)), serde_json::to_string(&to_serde(&value)).unwrap());
    assert_eq!(text(&s("\u{8}\u{c}")), "\"\\b\\f\"");
    assert_eq!(render_value(&s("plain")), "plain");
    assert_eq!(render_value(&n("42")), "42");
}

#[test]
fn canonical_form_orders_members_and_keeps_the_last_duplicate() {
    let value = obj(vec![("b", n("1")), ("a", n("2")), ("b", n("3"))]);
    assert_eq!(text(&canonicalize(&value)), "{\"a\":2,\"b\":3}");
}

#[test]
fn digest_verification_detects_changed_values() {
    let values = vec![("ticket".to_string(), s("#3"))];
    let digest = inputs_digest(&values);
    assert_eq!(digest.len(), 64);
    assert!(verify_inputs(&values, &digest).is_ok());
    let changed = vec![("ticket".to_string(), s("#4"))];
    assert!(matches!(verify_inputs(&changed, &digest), Err(InputError::DigestMismatch { .. })));
}

#[test]
fn kinds_name_and_match_values() {
    assert_eq!(kind_name(&InputKind::Object), "an object");
    assert!(value_matches(&InputKind::Json, &JsonValue::Null));
    assert!(!value_matches(&InputKind::Number, &s("1")));
}
