use sb::coord::MavenCoord;
use sb::pom::{
    add_builtin_properties, dependency_children, interpolate, interpolate_pom, merge_parent, ManagedDep, Pom, PomDep,
    Properties, QueueEntry,
};

fn s(x: &str) -> String {
    x.to_string()
}

fn props(items: &[(&str, &str)]) -> Properties {
    let mut p = Properties::new();
    for (k, v) in items {
        p.insert(s(k), s(v));
    }
    p
}

fn managed(g: &str, a: &str, v: &str) -> ManagedDep {
    ManagedDep { group_id: s(g), artifact_id: s(a), version: s(v), scope: None, dep_type: s("jar"), exclusions: vec![] }
}

fn empty_pom() -> Pom {
    Pom {
        parent: None,
        group_id: None,
        artifact_id: None,
        version: None,
        packaging: s("jar"),
        properties: Properties::new(),
        dependency_management: vec![],
        dependencies: vec![],
    }
}

#[test]
fn interpolate_replaces_known_keys() {
    let p = props(&[("v", "1.2"), ("name", "core")]);
    assert_eq!(interpolate("lib-${name}-${v}", &p), "lib-core-1.2");
}

#[test]
fn interpolate_keeps_unknown_and_unclosed() {
    let p = props(&[("v", "1.2")]);
    assert_eq!(interpolate("${x}-${v}", &p), "${x}-1.2");
    assert_eq!(interpolate("a ${v", &p), "a ${v");
    assert_eq!(interpolate("", &p), "");
}

#[test]
fn interpolate_is_recursive_but_bounded() {
    let p = props(&[("a", "${b}"), ("b", "done")]);
    assert_eq!(interpolate("${a}", &p), "done");
    let looping = props(&[("a", "${a}x")]);
    let out = interpolate("${a}", &looping);
    assert_eq!(out, format!("${{a}}{}", "x".repeat(10)));
}

#[test]
fn properties_later_value_wins() {
    let p = props(&[("k", "1"), ("k", "2")]);
    assert_eq!(p.get("k").map(|v| v.as_str()), Some("2"));
    assert!(p.get("missing").is_none());
}

#[test]
fn merge_parent_inherits_missing_parts() {
    let mut child = empty_pom();
    child.version = Some(s("2.0"));
    child.properties = props(&[("shared", "child")]);
    child.dependency_management = vec![managed("g", "a", "1")];
    let mut parent = empty_pom();
    parent.group_id = Some(s("org.example"));
    parent.version = Some(s("1.0"));
    parent.properties = props(&[("shared", "parent"), ("only", "parent")]);
    parent.dependency_management = vec![managed("g", "a", "9"), managed("g", "b", "3")];
    merge_parent(&mut child, &parent);
    assert_eq!(child.group_id.as_deref(), Some("org.example"));
    assert_eq!(child.version.as_deref(), Some("2.0"));
    assert_eq!(child.properties.get("shared").map(|v| v.as_str()), Some("child"));
    assert_eq!(child.properties.get("only").map(|v| v.as_str()), Some("parent"));
    let dm: Vec<(String, String, String)> = child
        .dependency_management
        .iter()
        .map(|m| (m.group_id.clone(), m.artifact_id.clone(), m.version.clone()))
        .collect();
    assert_eq!(dm, vec![(s("g"), s("a"), s("1")), (s("g"), s("b"), s("3"))]);
}

#[test]
fn interpolate_pom_fields() {
    let mut pom = empty_pom();
    pom.group_id = Some(s("${project.groupId}"));
    pom.dependency_management = vec![managed("${g}", "x", "${v}")];
    pom.dependencies = vec![PomDep {
        group_id: s("${g}"),
        artifact_id: s("y"),
        version: Some(s("${v}")),
        scope: s("${scope}"),
        optional: false,
        dep_type: s("jar"),
        exclusions: vec![],
    }];
    let p = props(&[("g", "org"), ("v", "5"), ("scope", "runtime"), ("project.groupId", "top")]);
    interpolate_pom(&mut pom, &p);
    assert_eq!(pom.group_id.as_deref(), Some("top"));
    assert_eq!(pom.dependency_management[0].group_id, "org");
    assert_eq!(pom.dependency_management[0].version, "5");
    assert_eq!(pom.dependencies[0].group_id, "org");
    assert_eq!(pom.dependencies[0].version.as_deref(), Some("5"));
    assert_eq!(pom.dependencies[0].scope, "runtime");
}

#[test]
fn builtin_properties() {
    let mut pom = empty_pom();
    pom.group_id = Some(s("org"));
    pom.version = Some(s("1.0"));
    pom.parent = Some(MavenCoord::new(s("p"), s("q"), s("r")));
    add_builtin_properties(&mut pom);
    assert_eq!(pom.properties.get("project.groupId").map(|v| v.as_str()), Some("org"));
    assert_eq!(pom.properties.get("pom.version").map(|v| v.as_str()), Some("1.0"));
    assert!(pom.properties.get("project.artifactId").is_none());
}

#[test]
fn dependency_children_filters_and_versions() {
    let dep = |g: &str, a: &str, v: Option<&str>, scope: &str, optional: bool| PomDep {
        group_id: s(g),
        artifact_id: s(a),
        version: v.map(s),
        scope: s(scope),
        optional,
        dep_type: s("jar"),
        exclusions: vec![],
    };
    let mut pom = empty_pom();
    pom.dependencies = vec![
        dep("g", "kept", Some("1.0"), "compile", false),
        dep("g", "test-only", Some("1.0"), "test", false),
        dep("g", "opt", Some("1.0"), "compile", true),
        dep("x", "excluded", Some("1.0"), "compile", false),
        dep("g", "managed", None, "runtime", false),
        dep("g", "ranged", Some("[1.0,2.0)"), "compile", false),
        dep("g", "done", Some("1.0"), "compile", false),
        dep("g", "unversioned", None, "compile", false),
    ];
    let mut m = managed("g", "managed", "4.2");
    m.exclusions = vec![(s("e"), s("f"))];
    let dm = vec![m];
    let entry = QueueEntry {
        coord: MavenCoord::new(s("root"), s("r"), s("1")),
        depth: 0,
        exclusions: vec![(s("x"), s("*"))],
    };
    let resolved = vec![(s("g"), s("done"))];
    let kids = dependency_children(&entry, &pom, &dm, &resolved);
    let got: Vec<(String, String, u32)> =
        kids.iter().map(|k| (k.coord.artifact_id.clone(), k.coord.version.clone(), k.depth)).collect();
    assert_eq!(got, vec![(s("kept"), s("1.0"), 1), (s("managed"), s("4.2"), 1)]);
    assert_eq!(kids[1].exclusions, vec![(s("x"), s("*")), (s("e"), s("f"))]);
}
