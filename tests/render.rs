use tera_render::pipeline::{Action, Config, Event, Fault, Phase, Pipeline, Stage};
use tera_render::value::{merge, merge_all, Value};

fn text(s: &str) -> Value {
    Value::String(s.to_string())
}

fn object(entries: Vec<(&str, Value)>) -> Value {
    Value::Object(entries.into_iter().map(|(k, v)| (k.to_string(), v)).collect())
}

fn user(entries: Vec<(&str, Value)>) -> Value {
    object(vec![("user", object(entries))])
}

fn lookup<'a>(v: &'a Value, key: &str) -> Option<&'a Value> {
    match v {
        Value::Object(entries) => entries.iter().rev().find(|(k, _)| k == key).map(|(_, v)| v),
        _ => None,
    }
}

fn string_at(v: &Value, path: &[&str]) -> Option<String> {
    let mut cur = v;
    for key in path {
        cur = lookup(cur, key)?;
    }
    match cur {
        Value::String(s) => Some(s.clone()),
        _ => None,
    }
}

fn config(sources: &[&str], template: Option<&str>, output: Option<&str>, escape: bool) -> Config {
    Config {
        sources: sources.iter().map(|s| s.to_string()).collect(),
        template: template.map(|s| s.to_string()),
        output: output.map(|s| s.to_string()),
        escape,
    }
}

fn vars() -> Value {
    user(vec![("id", text("1")), ("name", text("florian")), ("path", text("/users/1"))])
}

const TEMPLATE: &str = "{{ user.id }},{{ user.name }},{{ user.path }}";

/// Runs the pipeline up to its render action, loading `docs` in order.
fn run_to_render(cfg: Config, docs: Vec<Value>) -> (Pipeline, Option<Value>, String, bool) {
    let (mut p, mut action) = Pipeline::start(cfg);
    for doc in docs {
        assert!(matches!(action, Action::Load(_)));
        assert!(p.can_take(&Event::Loaded(doc.deep_copy())));
        action = p.step(Event::Loaded(doc));
    }
    assert!(matches!(action, Action::ReadTemplate(_)));
    let action = p.step(Event::Text(TEMPLATE.to_string()));
    match action {
        Action::Render { variables, template, escape } => (p, variables, template, escape),
        _ => panic!("expected a render action"),
    }
}

#[test]
fn test_merge() {
    let vars2 = user(vec![("id", text("2"))]);
    let (_, variables, template, escape) =
        run_to_render(config(&["vars1.json", "vars2.json"], None, None, false), vec![vars(), vars2]);
    let variables = variables.expect("variables are bound");
    assert_eq!(string_at(&variables, &["user", "id"]), Some("2".to_string()));
    assert_eq!(string_at(&variables, &["user", "name"]), Some("florian".to_string()));
    assert_eq!(string_at(&variables, &["user", "path"]), Some("/users/1".to_string()));
    assert_eq!(template, TEMPLATE);
    assert!(!escape);
}

#[test]
fn test_escape() {
    let (_, variables, _, escape) = run_to_render(config(&["vars.json"], None, None, true), vec![vars()]);
    assert!(escape);
    assert_eq!(string_at(&variables.unwrap(), &["user", "path"]), Some("/users/1".to_string()));
}

#[test]
fn test_read_from_file() {
    let (mut p, action) = Pipeline::start(config(&["vars.json"], Some("template.tera"), None, false));
    match action {
        Action::Load(path) => assert_eq!(path, "vars.json"),
        _ => panic!("expected a load action"),
    }
    match p.step(Event::Loaded(vars())) {
        Action::ReadTemplate(path) => assert_eq!(path.as_deref(), Some("template.tera")),
        _ => panic!("expected the template to be read from its file"),
    }
}

#[test]
fn test_write_to_missing_file() {
    let (mut p, _, _, _) = run_to_render(config(&["vars.json"], None, Some("output.txt"), false), vec![vars()]);
    match p.step(Event::Text("1,florian,/users/1".to_string())) {
        Action::Write { path, text } => {
            assert_eq!(path.as_deref(), Some("output.txt"));
            assert_eq!(text, "1,florian,/users/1");
        },
        _ => panic!("expected a write action"),
    }
    assert!(matches!(p.step(Event::Written), Action::Finish));
}

#[test]
fn test_write_to_existing_file() {
    let (mut p, _, _, _) = run_to_render(config(&["vars.json"], None, Some("output.txt"), false), vec![vars()]);
    match p.step(Event::Text("1,florian,/users/1".to_string())) {
        Action::Write { path, text } => {
            assert_eq!(path.as_deref(), Some("output.txt"));
            assert_eq!(text, "1,florian,/users/1");
        },
        _ => panic!("expected a write action"),
    }
    assert!(matches!(p.step(Event::Written), Action::Finish));
    assert_eq!(p.phase, Phase::Finished);
}

#[test]
fn output_open_failure() {
    let (mut p, _, _, _) = run_to_render(config(&["vars.json"], None, Some("output.txt"), false), vec![vars()]);
    p.step(Event::Text("1,florian,/users/1".to_string()));
    match p.step(Event::Failed(Fault::Open, vec!["Permission denied (os error 13)".to_string()])) {
        Action::Abort(f) => {
            assert_eq!(f.stage, Stage::OpenOutput);
            assert_eq!(f.messages, vec!["Failed to open output.txt", "Permission denied (os error 13)"]);
        },
        _ => panic!("expected the run to fail"),
    }
}

#[test]
fn test_template_file_not_found() {
    let (mut p, _) = Pipeline::start(config(&["vars.json"], Some("template.tera"), None, false));
    p.step(Event::Loaded(user(vec![("id", text("1")), ("path", text("/users/1"))])));
    match p.step(Event::Failed(Fault::Read, vec!["No such file or directory (os error 2)".to_string()])) {
        Action::Abort(f) => {
            assert_eq!(f.stage, Stage::LoadTemplateFile);
            assert_eq!(
                f.messages,
                vec!["Failed to load template from file", "No such file or directory (os error 2)"]
            );
        },
        _ => panic!("expected the run to fail"),
    }
    assert_eq!(p.phase, Phase::Finished);
}

#[test]
fn test_undefined_var() {
    let doc = user(vec![("id", text("1")), ("path", text("/users/1"))]);
    let (mut p, variables, _, _) = run_to_render(config(&["vars.json"], None, None, false), vec![doc]);
    assert_eq!(string_at(&variables.unwrap(), &["user", "name"]), None);
    let causes = vec![
        "Failed to render '__tera_one_off'".to_string(),
        "Variable `user.name` not found in context while rendering '__tera_one_off'".to_string(),
    ];
    match p.step(Event::Failed(Fault::Render, causes)) {
        Action::Abort(f) => {
            assert_eq!(f.stage, Stage::Render);
            assert_eq!(
                f.messages,
                vec![
                    "Failed to render template",
                    "Failed to render '__tera_one_off'",
                    "Variable `user.name` not found in context while rendering '__tera_one_off'",
                ]
            );
        },
        _ => panic!("expected the run to fail"),
    }
}

#[test]
fn overlay_scalar_wins_and_siblings_stay() {
    let mut base = object(vec![("id", text("1")), ("name", text("florian")), ("path", text("/users/1"))]);
    merge(&mut base, &object(vec![("id", text("2"))]));
    assert_eq!(string_at(&base, &["id"]), Some("2".to_string()));
    assert_eq!(string_at(&base, &["name"]), Some("florian".to_string()));
    assert_eq!(string_at(&base, &["path"]), Some("/users/1".to_string()));
}

#[test]
fn fold_of_three_equals_stepwise_merge() {
    let a = object(vec![("x", text("a")), ("y", text("a"))]);
    let b = object(vec![("y", text("b")), ("z", text("b"))]);
    let c = object(vec![("z", text("c"))]);
    let mut stepwise = a.deep_copy();
    merge(&mut stepwise, &b);
    merge(&mut stepwise, &c);
    let folded = merge_all(&vec![a, b, c]);
    for (key, want) in [("x", "a"), ("y", "b"), ("z", "c")] {
        assert_eq!(string_at(&stepwise, &[key]), Some(want.to_string()));
        assert_eq!(string_at(&folded, &[key]), Some(want.to_string()));
    }
}

#[test]
fn merge_order_matters() {
    let b = object(vec![("k", text("b"))]);
    let c = object(vec![("k", text("c"))]);
    let mut bc = Value::Null;
    merge(&mut bc, &b);
    merge(&mut bc, &c);
    let mut cb = Value::Null;
    merge(&mut cb, &c);
    merge(&mut cb, &b);
    assert_eq!(string_at(&bc, &["k"]), Some("c".to_string()));
    assert_eq!(string_at(&cb, &["k"]), Some("b".to_string()));
}

#[test]
fn scalar_overlay_replaces_object() {
    let mut base = object(vec![("a", text("1"))]);
    merge(&mut base, &Value::Bool(true));
    assert!(matches!(base, Value::Bool(true)));
}

#[test]
fn object_overlay_replaces_scalar_whole() {
    let mut base = Value::Number(serde_json::Number::from(7));
    merge(&mut base, &object(vec![("a", text("1"))]));
    assert_eq!(string_at(&base, &["a"]), Some("1".to_string()));
    match base {
        Value::Object(entries) => assert_eq!(entries.len(), 1),
        _ => panic!("expected an object"),
    }
}

#[test]
fn array_overlay_replaces_array() {
    let mut base = object(vec![("list", Value::Array(vec![text("a"), text("b"), text("c")]))]);
    merge(&mut base, &object(vec![("list", Value::Array(vec![text("z")]))]));
    match lookup(&base, "list") {
        Some(Value::Array(items)) => {
            assert_eq!(items.len(), 1);
            assert!(matches!(&items[0], Value::String(s) if s == "z"));
        },
        _ => panic!("expected an array"),
    }
}

#[test]
fn nested_objects_merge_deeply() {
    let mut base = object(vec![("a", object(vec![("b", object(vec![("c", text("1")), ("d", text("1"))]))]))]);
    merge(&mut base, &object(vec![("a", object(vec![("b", object(vec![("c", text("2"))]))]))]));
    assert_eq!(string_at(&base, &["a", "b", "c"]), Some("2".to_string()));
    assert_eq!(string_at(&base, &["a", "b", "d"]), Some("1".to_string()));
}

#[test]
fn new_key_is_added() {
    let mut base = object(vec![("a", text("1"))]);
    merge(&mut base, &object(vec![("b", object(vec![("c", text("2"))]))]));
    assert_eq!(string_at(&base, &["a"]), Some("1".to_string()));
    assert_eq!(string_at(&base, &["b", "c"]), Some("2".to_string()));
}

#[test]
fn no_documents_gives_empty_context() {
    let (mut p, action) = Pipeline::start(config(&[], None, None, false));
    assert!(matches!(action, Action::ReadTemplate(None)));
    match p.step(Event::Text("plain text".to_string())) {
        Action::Render { variables, template, .. } => {
            assert!(variables.is_none());
            assert_eq!(template, "plain text");
        },
        _ => panic!("expected a render action"),
    }
}

#[test]
fn null_documents_give_empty_context() {
    let (_, variables, _, _) = run_to_render(config(&["a.json", "b.json"], None, None, false), vec![Value::Null, Value::Null]);
    assert!(variables.is_none());
}

#[test]
fn stdout_is_the_default_output() {
    let (mut p, _, _, _) = run_to_render(config(&["vars.json"], None, None, false), vec![vars()]);
    match p.step(Event::Text("1,florian,/users/1".to_string())) {
        Action::Write { path, text } => {
            assert!(path.is_none());
            assert_eq!(text, "1,florian,/users/1");
        },
        _ => panic!("expected a write action"),
    }
    match p.step(Event::Failed(Fault::Write, vec!["Broken pipe (os error 32)".to_string()])) {
        Action::Abort(f) => {
            assert_eq!(f.stage, Stage::WriteStdout);
            assert_eq!(f.messages, vec!["Failed to write result to stdout", "Broken pipe (os error 32)"]);
        },
        _ => panic!("expected the run to fail"),
    }
}

#[test]
fn parse_failure_stops_loading() {
    let (mut p, _) = Pipeline::start(config(&["a.json", "b.json", "c.json"], None, None, false));
    p.step(Event::Loaded(object(vec![("k", text("a"))])));
    match p.step(Event::Failed(Fault::Parse, vec!["EOF while parsing a value at line 1 column 0".to_string()])) {
        Action::Abort(f) => {
            assert_eq!(f.stage, Stage::ParseSource);
            assert_eq!(
                f.messages,
                vec!["Failed to parse b.json", "EOF while parsing a value at line 1 column 0"]
            );
        },
        _ => panic!("expected the run to fail"),
    }
    assert_eq!(p.phase, Phase::Finished);
    assert_eq!(string_at(&p.variables, &["k"]), Some("a".to_string()));
    assert!(!p.can_take(&Event::Loaded(Value::Null)));
    assert!(!p.can_take(&Event::Text(String::new())));
}

#[test]
fn open_failure_names_the_source() {
    let (mut p, _) = Pipeline::start(config(&["a.json", "missing.json"], None, None, false));
    match p.step(Event::Loaded(Value::Null)) {
        Action::Load(path) => assert_eq!(path, "missing.json"),
        _ => panic!("expected the second document to be loaded"),
    }
    match p.step(Event::Failed(Fault::Open, vec!["No such file or directory (os error 2)".to_string()])) {
        Action::Abort(f) => {
            assert_eq!(f.stage, Stage::OpenSource);
            assert_eq!(f.messages, vec!["Failed to open missing.json", "No such file or directory (os error 2)"]);
        },
        _ => panic!("expected the run to fail"),
    }
}

#[test]
fn stdin_template_failure() {
    let (mut p, _) = Pipeline::start(config(&[], None, None, false));
    match p.step(Event::Failed(Fault::Read, vec!["stream did not contain valid UTF-8".to_string()])) {
        Action::Abort(f) => {
            assert_eq!(f.stage, Stage::LoadTemplateStdin);
            assert_eq!(f.messages, vec!["Failed to load template from stdin", "stream did not contain valid UTF-8"]);
        },
        _ => panic!("expected the run to fail"),
    }
}

#[test]
fn context_failure() {
    let (mut p, variables, _, _) =
        run_to_render(config(&["a.json"], None, None, false), vec![Value::Array(vec![])]);
    assert!(matches!(variables, Some(Value::Array(_))));
    match p.step(Event::Failed(Fault::Context, vec!["Creating a Context from a Value/Serialize requires it being a JSON object".to_string()])) {
        Action::Abort(f) => {
            assert_eq!(f.stage, Stage::BuildContext);
            assert_eq!(f.messages[0], "Failed to create template context");
            assert_eq!(f.messages.len(), 2);
        },
        _ => panic!("expected the run to fail"),
    }
}

#[test]
fn output_write_failure() {
    let (mut p, _, _, _) = run_to_render(config(&["vars.json"], None, Some("out.txt"), false), vec![vars()]);
    p.step(Event::Text("x".to_string()));
    match p.step(Event::Failed(Fault::Write, vec!["No space left on device (os error 28)".to_string()])) {
        Action::Abort(f) => {
            assert_eq!(f.stage, Stage::WriteOutput);
            assert_eq!(
                f.messages,
                vec!["Failed to write result to out.txt", "No space left on device (os error 28)"]
            );
        },
        _ => panic!("expected the run to fail"),
    }
}

#[test]
fn duplicate_keys_are_not_well_formed() {
    assert!(vars().is_well_formed());
    assert!(!object(vec![("a", text("1")), ("a", text("2"))]).is_well_formed());
    assert!(!Value::Array(vec![object(vec![("a", Value::Null), ("a", Value::Null)])]).is_well_formed());
}

#[test]
fn deep_copy_keeps_contents() {
    let v = object(vec![("n", Value::Number(serde_json::Number::from(3))), ("l", Value::Array(vec![Value::Bool(false)]))]);
    let c = v.deep_copy();
    assert_eq!(format!("{:?}", v), format!("{:?}", c));
}
