use glam::codegen::config::{ContextValue, RenderContext};
use glam::codegen::error::CodegenError;
use glam::codegen::run::{compare_with_existing, template_path_of, CheckTally, Comparison, Delivery, RunOptions};
use glam::codegen::search::{config_candidates, find_config_file, SearchStep};
use glam::codegen::select::{keep_selected, select_output_paths, PathFilter};
use glam::codegen::text::snake_case;
use glam::sorted_map::SortedMap;

fn opts(force: bool, stdout: bool, nofmt: bool, check: bool) -> RunOptions {
    RunOptions { force, stdout, nofmt, check, verbose: false }
}

fn pairs<'a>(paths: &[&str]) -> SortedMap<RenderContext<'a>> {
    let mut m = SortedMap::new();
    for p in paths {
        m.insert(p.to_string(), RenderContext { entries: SortedMap::new() });
    }
    m
}

#[test]
fn snake_case_filter() {
    assert_eq!(snake_case("TestStructF32"), "test_struct_f32");
    assert_eq!(snake_case("Vec3A"), "vec3_a");
    assert_eq!(snake_case(""), "");
    assert_eq!(snake_case("already_snake"), "already_snake");
    assert_eq!(snake_case("HTTPServer"), "h_t_t_p_server");
    assert_eq!(snake_case("ÉtéÀ"), "Été_À");
}

#[test]
fn candidates_walk_up_to_the_root() {
    assert_eq!(
        config_candidates("/a/b/c"),
        vec!["/a/b/codegen.json".to_string(), "/a/codegen.json".to_string(), "/codegen.json".to_string()]
    );
    assert_eq!(config_candidates("/"), Vec::<String>::new());
    assert_eq!(config_candidates("tools/codegen"), vec!["tools/codegen.json".to_string(), "codegen.json".to_string()]);
}

fn found(r: Result<SearchStep, CodegenError>) -> Option<String> {
    match r {
        Ok(SearchStep::Found(f)) => Some(f),
        _ => None,
    }
}

fn to_check(r: Result<SearchStep, CodegenError>) -> Option<String> {
    match r {
        Ok(SearchStep::Check(f)) => Some(f),
        _ => None,
    }
}

#[test]
fn first_present_candidate_is_found() {
    let c = config_candidates("/a/b/c");
    assert_eq!(to_check(find_config_file("/a/b/c", &c, &vec![])), Some("/a/b/codegen.json".to_string()));
    assert_eq!(to_check(find_config_file("/a/b/c", &c, &vec![false])), Some("/a/codegen.json".to_string()));
    assert_eq!(found(find_config_file("/a/b/c", &c, &vec![false, true])), Some("/a/codegen.json".to_string()));
    assert_eq!(found(find_config_file("/a/b/c", &c, &vec![true])), Some("/a/b/codegen.json".to_string()));
    assert_eq!(found(find_config_file("/a/b/c", &c, &vec![false, true, true])), Some("/a/codegen.json".to_string()));
    match find_config_file("/a/b/c", &c, &vec![false, false, false]) {
        Err(CodegenError::ConfigNotFound { searched_from }) => assert_eq!(searched_from, "/a/b/c"),
        _ => panic!("expected not found"),
    }
}

#[test]
fn search_stops_at_the_first_existing_file() {
    let c = config_candidates("/r/tools/codegen");
    let exists = |p: &str| p == "/r/codegen.json" || p == "/codegen.json";
    let mut answers: Vec<bool> = Vec::new();
    let mut asked: Vec<String> = Vec::new();
    let file = loop {
        match find_config_file("/r/tools/codegen", &c, &answers) {
            Ok(SearchStep::Found(f)) => break f,
            Ok(SearchStep::Check(next)) => {
                answers.push(exists(&next));
                asked.push(next);
            }
            Err(_) => panic!("expected a file"),
        }
    };
    assert_eq!(file, "/r/codegen.json");
    assert_eq!(asked, vec!["/r/tools/codegen.json".to_string(), "/r/codegen.json".to_string()]);
}

#[test]
fn start_directory_is_not_searched() {
    let c = config_candidates("/r/tools/codegen");
    assert_eq!(
        c,
        vec!["/r/tools/codegen.json".to_string(), "/r/codegen.json".to_string(), "/codegen.json".to_string()]
    );
    assert!(!c.contains(&"/r/tools/codegen/codegen.json".to_string()));
    assert_eq!(config_candidates(""), Vec::<String>::new());
    assert_eq!(config_candidates("a"), vec!["codegen.json".to_string()]);
    assert_eq!(config_candidates("a/"), vec!["codegen.json".to_string()]);
    assert_eq!(config_candidates("a//"), vec!["codegen.json".to_string()]);
}

#[test]
fn trailing_and_repeated_slashes_are_skipped() {
    assert_eq!(
        config_candidates("/r/tools/codegen/"),
        vec!["/r/tools/codegen.json".to_string(), "/r/codegen.json".to_string(), "/codegen.json".to_string()]
    );
    assert_eq!(config_candidates("/r//tools"), vec!["/r/codegen.json".to_string(), "/codegen.json".to_string()]);
    assert_eq!(config_candidates("r/x//"), vec!["r/codegen.json".to_string(), "codegen.json".to_string()]);
}

#[test]
fn filter_selects_matching_paths_in_order() {
    let p = pairs(&["src/b.rs", "src/a.rs", "docs/x.md"]);
    let f = PathFilter::new("src/*.rs".to_string()).ok().unwrap();
    assert_eq!(f.pattern(), "src/*.rs");
    assert!(f.is_match("src/a.rs"));
    assert!(!f.is_match("docs/x.md"));
    let selected = select_output_paths(&p, Some(&f)).ok().unwrap();
    assert_eq!(selected, vec!["src/a.rs".to_string(), "src/b.rs".to_string()]);
    let all = select_output_paths(&p, None).ok().unwrap();
    assert_eq!(all, vec!["docs/x.md".to_string(), "src/a.rs".to_string(), "src/b.rs".to_string()]);
}

#[test]
fn plain_pattern_matches_only_itself() {
    let f = PathFilter::new("src/test_output.rs".to_string()).ok().unwrap();
    assert!(f.is_match("src/test_output.rs"));
    assert!(!f.is_match("src/test_output.rsx"));
    assert!(!f.is_match("src/test_output"));
    assert!(!f.is_match("src/other.rs"));
    let p = pairs(&["src/test_output.rs", "src/test1_f32.rs"]);
    assert_eq!(select_output_paths(&p, Some(&f)).ok(), Some(vec!["src/test_output.rs".to_string()]));
}

#[test]
fn filter_matching_nothing_is_an_error() {
    let p = pairs(&["src/a.rs"]);
    let f = PathFilter::new("*.md".to_string()).ok().unwrap();
    match select_output_paths(&p, Some(&f)) {
        Err(CodegenError::NoMatchingOutputs { pattern }) => assert_eq!(pattern, "*.md"),
        _ => panic!("expected no match"),
    }
    let paths = vec!["a".to_string(), "b".to_string()];
    assert_eq!(keep_selected(&paths, &vec![false, true], None).ok(), Some(vec!["b".to_string()]));
    assert!(keep_selected(&paths, &vec![false, false], None).ok().unwrap().is_empty());
    assert!(keep_selected(&paths, &vec![false, false], Some(&"g".to_string())).is_err());
}

#[test]
fn invalid_glob_is_refused() {
    assert!(matches!(PathFilter::new("src/[".to_string()), Err(CodegenError::InvalidGlob(_))));
    assert!(matches!(PathFilter::new("{a,b".to_string()), Err(CodegenError::InvalidGlob(_))));
    assert!(matches!(PathFilter::new("a/**b".to_string()), Ok(_)));
}

#[test]
fn long_plain_pattern_matches_itself() {
    let long: String = "ab/".repeat(300) + "x.rs";
    let f = PathFilter::new(long.clone()).ok().unwrap();
    assert_eq!(f.pattern(), &long);
    assert!(f.is_match(&long));
    assert!(!f.is_match("x.rs"));
    assert!(PathFilter::new(String::new()).is_ok());
}

#[test]
fn deepest_admitted_nesting_returns() {
    let nested: String = "{".repeat(512) + &"}".repeat(512);
    assert_eq!(nested.len(), glam::codegen::select::MAX_GLOB_LEN);
    let _ = PathFilter::new(nested);
    let nested_ok: String = "{a,".repeat(20) + "b" + &"}".repeat(20);
    let f = PathFilter::new(nested_ok).ok().unwrap();
    assert!(f.is_match("a"));
    assert!(f.is_match("b"));
    assert!(!f.is_match("c"));
}

#[test]
fn filter_resolution() {
    let o = opts(false, true, false, false);
    assert!(matches!(o.resolve_filter(None, &Some("x".to_string())), Err(CodegenError::StdoutNeedsSingleFile)));
    let o = opts(false, false, false, false);
    assert!(matches!(o.resolve_filter(None, &None), Ok(None)));
    let f = o.resolve_filter(None, &Some("src/*".to_string())).ok().unwrap().unwrap();
    assert_eq!(f.pattern(), "src/*");
    let f = o.resolve_filter(Some("a*".to_string()), &Some("src/*".to_string())).ok().unwrap().unwrap();
    assert_eq!(f.pattern(), "a*");
    assert!(matches!(o.resolve_filter(Some("src/[".to_string()), &None), Err(CodegenError::InvalidGlob(_))));
    assert!(matches!(o.resolve_filter(None, &Some("{a".to_string())), Err(CodegenError::InvalidGlob(_))));
    let f = o.resolve_filter(Some("src/main.rs".to_string()), &Some("[".to_string())).ok().unwrap().unwrap();
    assert_eq!(f.pattern(), "src/main.rs");
}

#[test]
fn run_switches() {
    assert!(opts(false, false, false, false).guards_local_changes());
    assert!(!opts(true, false, false, false).guards_local_changes());
    assert!(!opts(false, true, false, false).guards_local_changes());
    assert!(!opts(false, false, false, true).guards_local_changes());
    assert!(opts(false, false, false, false).formats_output());
    assert!(!opts(false, false, true, false).formats_output());
    assert!(opts(false, false, true, true).formats_output());
    assert!(opts(false, false, false, false).announces_generation());
    assert!(!opts(false, false, false, true).announces_generation());
    assert!(matches!(opts(false, true, false, true).delivery(), Delivery::Compare));
    assert!(matches!(opts(false, true, false, false).delivery(), Delivery::Print));
    assert!(matches!(opts(false, false, false, false).delivery(), Delivery::Write));
}

#[test]
fn local_changes_stop_an_unforced_write() {
    let p = "src/a.rs".to_string();
    match opts(false, false, false, false).check_local_changes(&p, true) {
        Err(CodegenError::AlreadyModified { path }) => assert_eq!(path, "src/a.rs"),
        _ => panic!("expected already modified"),
    }
    assert!(opts(false, false, false, false).check_local_changes(&p, false).is_ok());
    assert!(opts(true, false, false, false).check_local_changes(&p, true).is_ok());
}

#[test]
fn check_mode_counts_differences() {
    let gen = "fn a() {}\n".to_string();
    assert!(matches!(compare_with_existing(&gen, &Some(gen.clone())), Comparison::Same));
    assert!(matches!(compare_with_existing(&gen, &Some("// This is different content".to_string())), Comparison::Different));
    assert!(matches!(compare_with_existing(&gen, &None), Comparison::Unreadable));
    let mut t = CheckTally::new();
    t.record(&Comparison::Same);
    assert!(t.finish(&opts(false, false, false, true)).is_ok());
    t.record(&Comparison::Different);
    t.record(&Comparison::Unreadable);
    assert_eq!(t.differences, 2);
    match t.finish(&opts(false, false, false, true)) {
        Err(CodegenError::FilesDifferent { count }) => assert_eq!(count, 2),
        _ => panic!("expected differences"),
    }
    assert!(t.finish(&opts(false, false, false, false)).is_ok());
}

#[test]
fn template_path_lookup() {
    let mut entries = SortedMap::new();
    entries.insert("template_path".to_string(), ContextValue::Text("t.tera".to_string()));
    let ctx = RenderContext { entries };
    assert_eq!(template_path_of(&ctx), Some("t.tera"));
    let empty = RenderContext { entries: SortedMap::new() };
    assert!(template_path_of(&empty).is_none());
    let replaced = serde_json::Value::from("other.tera");
    let mut entries = SortedMap::new();
    entries.insert("template_path".to_string(), ContextValue::Json(&replaced));
    let ctx = RenderContext { entries };
    assert_eq!(template_path_of(&ctx), Some("other.tera"));
}
