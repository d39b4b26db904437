use sb::config::{join_path, Project, SbConfig};
use sb::coord::MavenCoord;
use sb::resolve::{dep_hash, resolve_dep_coord, ResolvedClasspath};

fn s(x: &str) -> String {
    x.to_string()
}

#[test]
fn project_directories() {
    assert_eq!(SbConfig::source_dir("/p"), "/p/src/main/scala");
    assert_eq!(SbConfig::classes_dir("/p/"), "/p/.sb/classes");
    assert_eq!(SbConfig::cache_dir(""), ".sb/cache");
    assert_eq!(join_path("a", "b"), "a/b");
}

#[test]
fn coordinate_parse_and_paths() {
    let c = match MavenCoord::parse("org.typelevel:cats-core_3:2.12.0") {
        Ok(c) => c,
        Err(_) => panic!("expected a coordinate"),
    };
    assert_eq!(c.repo_path(), "org/typelevel/cats-core_3/2.12.0");
    assert_eq!(
        c.pom_url(),
        "https://repo1.maven.org/maven2/org/typelevel/cats-core_3/2.12.0/cats-core_3-2.12.0.pom"
    );
    assert_eq!(
        c.jar_url(),
        "https://repo1.maven.org/maven2/org/typelevel/cats-core_3/2.12.0/cats-core_3-2.12.0.jar"
    );
    assert_eq!(c.local_jar_path("/cache"), "/cache/org/typelevel/cats-core_3/2.12.0/cats-core_3-2.12.0.jar");
    assert_eq!(c.local_pom_path("/cache/"), "/cache/org/typelevel/cats-core_3/2.12.0/cats-core_3-2.12.0.pom");
    assert_eq!(c.key(), (s("org.typelevel"), s("cats-core_3")));
    assert_eq!(c.coordinate(), "org.typelevel:cats-core_3:2.12.0");
    let n = MavenCoord::new(s("g"), s("a"), s("v"));
    assert_eq!(n.coordinate(), "g:a:v");
}

#[test]
fn coordinate_parse_rejects_wrong_parts() {
    for bad in ["a:b", "a:b:c:d", "abc"] {
        match MavenCoord::parse(bad) {
            Ok(_) => panic!("accepted {bad}"),
            Err(e) => assert!(e.message().ends_with(bad)),
        }
    }
}

#[test]
fn cross_built_dependency_coordinates() {
    assert_eq!(resolve_dep_coord("org::name:1.0", "3.6.4"), "org:name_3:1.0");
    assert_eq!(resolve_dep_coord("org:name:1.0", "3.6.4"), "org:name:1.0");
    assert_eq!(resolve_dep_coord("org::name", "3.6.4"), "org::name");
}

#[test]
fn classpath_round_trip() {
    let cp = ResolvedClasspath { compiler_cp: s("a.jar:b.jar"), user_cp: s("c.jar") };
    let text = cp.serialize();
    assert_eq!(text, "a.jar:b.jar\nc.jar");
    let back = ResolvedClasspath::deserialize(&text).unwrap();
    assert_eq!(back.compiler_cp, "a.jar:b.jar");
    assert_eq!(back.user_cp, "c.jar");
    assert!(ResolvedClasspath::deserialize("only").is_none());
    assert!(ResolvedClasspath::deserialize("one\n").is_none());
    let crlf = ResolvedClasspath::deserialize("x\r\ny\r\nz").unwrap();
    assert_eq!((crlf.compiler_cp.as_str(), crlf.user_cp.as_str()), ("x", "y"));
}

#[test]
fn config_dep_hash_ignores_dependency_order() {
    let mk = |deps: Vec<String>| SbConfig {
        project: Project {
            name: s("p"),
            version: s("0.1.0"),
            scala_version: s("3.6.4"),
            main_class: None,
            dependencies: deps,
            scalac_options: vec![],
        },
    };
    assert_eq!(dep_hash(&mk(vec![s("b:b:1"), s("a:a:1")])), dep_hash(&mk(vec![s("a:a:1"), s("b:b:1")])));
}
