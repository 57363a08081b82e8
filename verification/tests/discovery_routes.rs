use script_broker::discovery::{
    lang_of_extension, make_route, resolve_conflicts, route_path_of, sort_routes, split_name,
    str_le, Lang, Route,
};

fn segs(parts: &[&str]) -> Vec<String> {
    parts.iter().map(|p| p.to_string()).collect()
}

fn route(rp: &str, fp: &str) -> Route {
    Route { route_path: rp.to_string(), file_path: fp.to_string(), lang: Lang::JavaScript }
}

#[test]
fn extensions_map_to_languages() {
    assert_eq!(lang_of_extension("js"), Some(Lang::JavaScript));
    assert_eq!(lang_of_extension("ts"), Some(Lang::TypeScript));
    assert_eq!(lang_of_extension("py"), Some(Lang::Python));
    assert_eq!(lang_of_extension("rb"), None);
    assert_eq!(lang_of_extension("txt"), None);
    assert_eq!(lang_of_extension(""), None);
}

#[test]
fn split_name_cases() {
    assert_eq!(split_name("greet.js"), ("greet".to_string(), Some("js".to_string())));
    assert_eq!(split_name("a.b.c"), ("a.b".to_string(), Some("c".to_string())));
    assert_eq!(split_name("noext"), ("noext".to_string(), None));
    assert_eq!(split_name(".gitignore"), (".gitignore".to_string(), None));
    assert_eq!(split_name(""), ("".to_string(), None));
}

#[test]
fn route_path_mirrors_the_tree() {
    assert_eq!(route_path_of(&segs(&["greet.js"])), "/api/greet");
    assert_eq!(route_path_of(&segs(&["users", "get.js"])), "/api/users/get");
    assert_eq!(route_path_of(&segs(&["a", "b", "c.py"])), "/api/a/b/c");
}

#[test]
fn make_route_recognizes_extensions() {
    let r = make_route(&segs(&["users", "get.js"]), "api/users/get.js".to_string()).unwrap();
    assert_eq!(r.route_path, "/api/users/get");
    assert_eq!(r.file_path, "api/users/get.js");
    assert_eq!(r.lang, Lang::JavaScript);

    assert!(make_route(&segs(&["readme.txt"]), "api/readme.txt".to_string()).is_none());
    assert!(make_route(&segs(&["noext"]), "api/noext".to_string()).is_none());
}

#[test]
fn str_le_is_lexicographic() {
    assert!(str_le("a", "b"));
    assert!(str_le("a", "a"));
    assert!(!str_le("b", "a"));
    assert!(str_le("ab", "b"));
    assert!(str_le("a", "ab"));
    assert!(!str_le("ab", "a"));
}

#[test]
fn sorting_is_by_route_path_then_file_path() {
    let sorted = sort_routes(vec![
        route("/api/z", "api/z.js"),
        route("/api/a", "api/a.js"),
        route("/api/m", "api/m.py"),
    ]);
    let paths: Vec<&str> = sorted.iter().map(|r| r.route_path.as_str()).collect();
    assert_eq!(paths, vec!["/api/a", "/api/m", "/api/z"]);
}

#[test]
fn discovery_is_deterministic() {
    let a = sort_routes(vec![
        route("/api/b", "api/b.js"),
        route("/api/a", "api/a.js"),
        route("/api/c", "api/c.js"),
    ]);
    let b = sort_routes(vec![
        route("/api/c", "api/c.js"),
        route("/api/a", "api/a.js"),
        route("/api/b", "api/b.js"),
    ]);
    for (x, y) in a.iter().zip(b.iter()) {
        assert_eq!(x.route_path, y.route_path);
        assert_eq!(x.file_path, y.file_path);
    }
    assert_eq!(a.len(), b.len());
}

#[test]
fn later_file_wins_a_route_conflict() {
    let sorted = sort_routes(vec![
        route("/api/greet", "api/greet.js"),
        route("/api/greet", "api/greet.py"),
        route("/api/other", "api/other.js"),
    ]);
    let (winners, losers) = resolve_conflicts(sorted);
    let wp: Vec<(&str, &str)> = winners
        .iter()
        .map(|r| (r.route_path.as_str(), r.file_path.as_str()))
        .collect();
    assert_eq!(wp, vec![("/api/greet", "api/greet.py"), ("/api/other", "api/other.js")]);
    assert_eq!(losers.len(), 1);
    assert_eq!(losers[0].file_path, "api/greet.js");
}

#[test]
fn no_conflicts_reports_nothing() {
    let sorted = sort_routes(vec![route("/api/a", "api/a.js"), route("/api/b", "api/b.js")]);
    let (winners, losers) = resolve_conflicts(sorted);
    assert_eq!(winners.len(), 2);
    assert!(losers.is_empty());
}
