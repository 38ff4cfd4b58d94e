use wlwl_eval::modpath::{module_source, ModuleSource};
use std::path::PathBuf;

use wlwl_eval::modpath::{
    ancestors, circular_import, find_project_root, is_within, lexical_normalize, normalize_parts, parse_ns_path,
    resolve_relative_import, PathPart, RelativeResolution,
};
use wlwl_eval::suggest::{levenshtein, similar_names};

fn normal(s: &str) -> PathPart {
    PathPart::Normal(s.to_string())
}

#[test]
fn c7_lexical_normalize_resolves_dotdot() {
    let base = PathBuf::from("/root/app");
    let smuggled = base.join("..").join("..").join("escape").join("m.wl");
    let n = lexical_normalize(smuggled.to_str().unwrap());
    assert_eq!(n, vec![PathPart::Root, normal("escape"), normal("m.wl")]);
    let dotted = base.join(".").join("sub").join("m.wl");
    assert_eq!(
        lexical_normalize(dotted.to_str().unwrap()),
        vec![PathPart::Root, normal("root"), normal("app"), normal("sub"), normal("m.wl")]
    );
}

#[test]
fn lexical_normalize_pops_past_root_stays_at_root() {
    assert_eq!(lexical_normalize("/../a"), vec![PathPart::Root, normal("a")]);
    assert_eq!(lexical_normalize("a/b/../../.."), Vec::<PathPart>::new());
}

#[test]
fn is_within_compares_whole_components() {
    let root = lexical_normalize("/root/app");
    assert!(is_within(&lexical_normalize("/root/app"), &root));
    assert!(is_within(&lexical_normalize("/root/app/sub/m.wl"), &root));
    assert!(!is_within(&lexical_normalize("/root/apple"), &root));
    assert!(!is_within(&lexical_normalize("/root"), &root));
}

#[test]
fn parse_ns_path_splits_third_party_names() {
    assert_eq!(parse_ns_path("acme:util"), Some(("acme", "util")));
    assert_eq!(parse_ns_path("acme:a:b"), Some(("acme", "a:b")));
    assert_eq!(parse_ns_path("wlwl:std.math"), None);
    assert_eq!(parse_ns_path("./x:y"), None);
    assert_eq!(parse_ns_path("../x:y"), None);
    assert_eq!(parse_ns_path(":util"), None);
    assert_eq!(parse_ns_path("acme:"), None);
    assert_eq!(parse_ns_path("plain"), None);
}

#[test]
fn ancestors_walk_up_to_the_root() {
    let start = lexical_normalize("/a/b");
    let anc = ancestors(&start);
    assert_eq!(
        anc,
        vec![
            vec![PathPart::Root, normal("a"), normal("b")],
            vec![PathPart::Root, normal("a")],
            vec![PathPart::Root],
        ]
    );
}

#[test]
fn find_project_root_takes_nearest_manifest() {
    let start = lexical_normalize("/a/b/c");
    let root = find_project_root(&start, &vec![false, true, true, false]);
    assert_eq!(root, vec![PathPart::Root, normal("a"), normal("b")]);
    let none = find_project_root(&start, &vec![false, false, false, false]);
    assert_eq!(none, start);
}

#[test]
fn relative_import_resolves_against_base_dir() {
    let base = lexical_normalize("/proj/src");
    match resolve_relative_import(&base, "./lib/util") {
        RelativeResolution::Resolved(r) => {
            assert_eq!(r.module, "util");
        }
        other => panic!("expected a resolution, got {:?}", other),
    }
    assert!(matches!(resolve_relative_import(&base, "util"), RelativeResolution::NotRelative));
    assert!(matches!(
        resolve_relative_import(&base, "../../../x"),
        RelativeResolution::OutsideRoot
    ));
}

#[test]
fn circular_import_reports_the_cycle() {
    let loading = vec!["a".to_string(), "b".to_string()];
    assert_eq!(circular_import(&loading, "a"), Some("a -> b -> a".to_string()));
    assert_eq!(circular_import(&loading, "c"), None);
}

#[test]
fn levenshtein_known_distances() {
    assert_eq!(levenshtein("kitten", "sitting"), 3);
    assert_eq!(levenshtein("", "abc"), 3);
    assert_eq!(levenshtein("abc", ""), 3);
    assert_eq!(levenshtein("same", "same"), 0);
    assert_eq!(levenshtein("ab", "ba"), 2);
}

#[test]
fn similar_names_orders_by_distance_and_caps() {
    let pool = vec![
        "count".to_string(),
        "counter".to_string(),
        "cnt".to_string(),
        "total".to_string(),
        "countr".to_string(),
        "coutn".to_string(),
    ];
    let got = similar_names("count", &pool, 3);
    assert_eq!(got, vec!["countr".to_string(), "counter".to_string(), "cnt".to_string()]);
    let one = similar_names("count", &pool, 1);
    assert_eq!(one, vec!["countr".to_string()]);
    assert!(similar_names("zzzzzzzz", &pool, 3).is_empty());
}

#[test]
fn drive_prefix_stays_before_root() {
    let parts = vec![PathPart::Prefix("C:".to_string()), PathPart::Root, normal("a")];
    assert_eq!(normalize_parts(&parts), parts);
    let parts = vec![PathPart::Prefix("C:".to_string()), PathPart::Root, normal("a"), PathPart::Parent, normal("b")];
    assert_eq!(
        normalize_parts(&parts),
        vec![PathPart::Prefix("C:".to_string()), PathPart::Root, normal("b")]
    );
}

#[test]
fn levenshtein_laws_on_examples() {
    assert_eq!(levenshtein("kitten", "sitting"), 3);
    assert_eq!(levenshtein("sitting", "kitten"), 3);
    assert_eq!(levenshtein("abc", "abc"), 0);
    assert!(levenshtein("abc", "abd") > 0);
    let d = levenshtein("ab", "abcde");
    assert!(d >= 3 && d <= 5);
    assert!(levenshtein("kitten", "sitting") <= levenshtein("kitten", "sittin") + levenshtein("sittin", "sitting"));
    assert_eq!(levenshtein("kitten", "sittin"), 2);
}

#[test]
fn suggestions_repeat_no_name() {
    let pool: Vec<String> = vec!["count".into(), "counter".into(), "mount".into()];
    let out = similar_names("coutn", &pool, 3);
    let mut seen = out.clone();
    seen.sort();
    seen.dedup();
    assert_eq!(seen.len(), out.len());
    assert!(!out.is_empty());
}

#[test]
fn bare_module_lookup_order() {
    use_bare_module_dirs();
}

fn use_bare_module_dirs() {
    let base = || vec![PathPart::Root, normal("p"), normal("sub")];
    let root = || vec![PathPart::Root, normal("p")];
    let dirs = wlwl_eval::modpath::bare_module_dirs(&base(), &root());
    assert_eq!(dirs, vec![base(), root()]);
    let dirs = wlwl_eval::modpath::bare_module_dirs(&root(), &root());
    assert_eq!(dirs, vec![root()]);
    assert_eq!(wlwl_eval::modpath::module_file_name("math"), "math.wl");
}

#[test]
fn module_source_orders_the_path_forms() {
    use_module_source();
}

fn use_module_source() {
    let base = vec![PathPart::Root, normal("p"), normal("sub")];
    let root = vec![PathPart::Root, normal("p")];
    assert!(matches!(module_source("wlwl:std.io", &base, &root), ModuleSource::Std));
    match module_source("acme:util", &base, &root) {
        ModuleSource::Namespace(ns, name) => {
            assert_eq!(ns, "acme");
            assert_eq!(name, "util");
        }
        other => panic!("{:?}", other),
    }
    match module_source("../m", &base, &root) {
        ModuleSource::Relative(RelativeResolution::Resolved(ri)) => {
            assert_eq!(ri.dir, vec![PathPart::Root, normal("p")]);
            assert_eq!(ri.module, "m");
        }
        other => panic!("{:?}", other),
    }
    match module_source("math", &base, &root) {
        ModuleSource::Bare(file, dirs) => {
            assert_eq!(file, "math.wl");
            assert_eq!(dirs.len(), 2);
        }
        other => panic!("{:?}", other),
    }
}
