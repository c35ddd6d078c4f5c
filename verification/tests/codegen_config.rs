use glam::codegen::config::{Config, ContextValue, Output, RenderContext, Template, TEMPLATE_PATH_KEY};
use glam::codegen::error::CodegenError;
use glam::sorted_map::SortedMap;
use serde_json::Value;

fn output(props: &[(&str, Value)]) -> Output {
    let mut properties = SortedMap::new();
    for (k, v) in props {
        properties.insert(k.to_string(), v.clone());
    }
    Output { properties }
}

fn template(props: &[(&str, Option<Value>)], outs: Vec<(&str, Output)>) -> Template {
    let mut properties = SortedMap::new();
    for (k, v) in props {
        properties.insert(k.to_string(), v.clone());
    }
    let mut outputs = SortedMap::new();
    for (k, o) in outs {
        outputs.insert(k.to_string(), o);
    }
    Template { properties, outputs }
}

fn config(version: u32, templates: Vec<(&str, Template)>) -> Config {
    let mut map = SortedMap::new();
    for (k, t) in templates {
        map.insert(k.to_string(), t);
    }
    Config { version, template_root: "templates".to_string(), default_glob: None, templates: map }
}

fn text(ctx: &RenderContext, key: &str) -> Option<String> {
    match ctx.entries.get(key) {
        Some(ContextValue::Text(s)) => Some(s.clone()),
        _ => None,
    }
}

fn json(ctx: &RenderContext, key: &str) -> Option<Value> {
    match ctx.entries.get(key) {
        Some(ContextValue::Json(v)) => Some((*v).clone()),
        _ => None,
    }
}

fn s(x: &str) -> Value {
    Value::String(x.to_string())
}

#[test]
fn test_error_missing_properties() {
    let cfg = config(
        1,
        vec![("test.rs.tera", template(&[("scalar_t", None)], vec![("src/output.rs", output(&[]))]))],
    );
    assert!(matches!(cfg.build_output_pairs(), Err(CodegenError::MissingPropertyOverride)));
}

#[test]
fn single_template_output_gets_its_property() {
    let cfg = config(
        1,
        vec![(
            "test.rs.tera",
            template(&[("scalar_t", None)], vec![("src/test_output.rs", output(&[("scalar_t", s("f32"))]))]),
        )],
    );
    let pairs = cfg.build_output_pairs().ok().unwrap();
    assert_eq!(pairs.len(), 1);
    assert_eq!(pairs.key_at(0), "src/test_output.rs");
    let ctx = pairs.get("src/test_output.rs").unwrap();
    assert_eq!(text(ctx, TEMPLATE_PATH_KEY), Some("test.rs.tera".to_string()));
    assert_eq!(json(ctx, "scalar_t"), Some(s("f32")));
    assert_eq!(ctx.entries.len(), 2);
}

#[test]
fn multiple_templates_give_every_output() {
    let cfg = config(
        1,
        vec![
            (
                "test1.rs.tera",
                template(
                    &[("scalar_t", None)],
                    vec![
                        ("src/test1_f32.rs", output(&[("scalar_t", s("f32"))])),
                        ("src/test1_f64.rs", output(&[("scalar_t", s("f64"))])),
                    ],
                ),
            ),
            (
                "test2.rs.tera",
                template(&[("scalar_t", None)], vec![("src/test2_f32.rs", output(&[("scalar_t", s("f32"))]))]),
            ),
        ],
    );
    let pairs = cfg.build_output_pairs().ok().unwrap();
    assert_eq!(pairs.len(), 3);
    assert_eq!(pairs.key_at(0), "src/test1_f32.rs");
    assert_eq!(pairs.key_at(1), "src/test1_f64.rs");
    assert_eq!(pairs.key_at(2), "src/test2_f32.rs");
    assert_eq!(json(pairs.get("src/test1_f64.rs").unwrap(), "scalar_t"), Some(s("f64")));
    assert_eq!(text(pairs.get("src/test2_f32.rs").unwrap(), TEMPLATE_PATH_KEY), Some("test2.rs.tera".to_string()));
}

#[test]
fn default_used_when_output_gives_none_and_override_wins() {
    let cfg = config(
        1,
        vec![(
            "t.tera",
            template(
                &[("a", Some(Value::Bool(false))), ("b", Some(s("dflt")))],
                vec![("out.rs", output(&[("b", s("own")), ("unused", s("x"))]))],
            ),
        )],
    );
    let pairs = cfg.build_output_pairs().ok().unwrap();
    let ctx = pairs.get("out.rs").unwrap();
    assert_eq!(json(ctx, "a"), Some(Value::Bool(false)));
    assert_eq!(json(ctx, "b"), Some(s("own")));
    assert_eq!(json(ctx, "unused"), None);
    assert_eq!(ctx.entries.len(), 3);
}

#[test]
fn later_template_wins_the_same_output() {
    let cfg = config(
        1,
        vec![
            ("b.tera", template(&[("p", Some(s("from b")))], vec![("same.rs", output(&[]))])),
            ("a.tera", template(&[("p", Some(s("from a")))], vec![("same.rs", output(&[]))])),
        ],
    );
    let pairs = cfg.build_output_pairs().ok().unwrap();
    assert_eq!(pairs.len(), 1);
    let ctx = pairs.get("same.rs").unwrap();
    assert_eq!(text(ctx, TEMPLATE_PATH_KEY), Some("b.tera".to_string()));
    assert_eq!(json(ctx, "p"), Some(s("from b")));
}

#[test]
fn property_named_template_path_takes_its_place() {
    let cfg = config(
        1,
        vec![("t.tera", template(&[("template_path", Some(Value::from(3)))], vec![("o.rs", output(&[]))]))],
    );
    let pairs = cfg.build_output_pairs().ok().unwrap();
    let ctx = pairs.get("o.rs").unwrap();
    assert_eq!(text(ctx, TEMPLATE_PATH_KEY), None);
    assert_eq!(json(ctx, TEMPLATE_PATH_KEY), Some(Value::from(3)));
    assert!(glam::codegen::run::template_path_of(ctx).is_none());
}

#[test]
fn string_property_named_template_path_is_the_template() {
    let cfg = config(
        1,
        vec![("t.tera", template(&[("template_path", Some(Value::from("u.tera")))], vec![("o.rs", output(&[]))]))],
    );
    let pairs = cfg.build_output_pairs().ok().unwrap();
    let ctx = pairs.get("o.rs").unwrap();
    assert_eq!(glam::codegen::run::template_path_of(ctx), Some("u.tera"));
}

#[test]
fn unknown_version_is_refused() {
    let cfg = config(2, vec![]);
    assert!(matches!(cfg.build_output_pairs(), Err(CodegenError::UnexpectedVersion)));
    let cfg = config(0, vec![("t", template(&[("x", None)], vec![("o", output(&[]))]))]);
    assert!(matches!(cfg.build_output_pairs(), Err(CodegenError::UnexpectedVersion)));
}

#[test]
fn empty_config_gives_nothing() {
    let cfg = config(1, vec![]);
    assert_eq!(cfg.build_output_pairs().ok().unwrap().len(), 0);
    let cfg = config(1, vec![("t", template(&[("x", None)], vec![]))]);
    assert_eq!(cfg.build_output_pairs_v1().ok().unwrap().len(), 0);
}

#[test]
fn missing_value_in_second_output_fails() {
    let cfg = config(
        1,
        vec![(
            "t",
            template(&[("x", None)], vec![("a.rs", output(&[("x", s("1"))])), ("b.rs", output(&[]))]),
        )],
    );
    assert!(matches!(cfg.build_output_pairs_v1(), Err(CodegenError::MissingPropertyOverride)));
}
