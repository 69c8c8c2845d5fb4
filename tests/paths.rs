use lune::{resolve_path, PathComponent, ScriptPath};

fn comps(s: &str) -> Vec<PathComponent> {
    let mut v = Vec::new();
    if s.starts_with('/') {
        v.push(PathComponent::RootDir);
    }
    for part in s.split('/').filter(|p| !p.is_empty()) {
        v.push(match part {
            "." => PathComponent::CurDir,
            ".." => PathComponent::ParentDir,
            name => PathComponent::Normal(name.to_string()),
        });
    }
    v
}

fn sp(s: &str) -> ScriptPath {
    resolve_path(&comps(s))
}

fn parts(p: &ScriptPath) -> Vec<&str> {
    p.parts.iter().map(|s| s.as_str()).collect()
}

#[test]
fn resolve_path_handles_dots_and_root() {
    let p = resolve_path(&comps("/a/b/../c"));
    assert!(p.rooted);
    assert_eq!(parts(&p), vec!["a", "c"]);
    let p = resolve_path(&comps("a/./b"));
    assert!(!p.rooted);
    assert_eq!(parts(&p), vec!["a", "b"]);
    let p = resolve_path(&comps("../../x"));
    assert_eq!(parts(&p), vec!["x"]);
    let p = resolve_path(&comps("/.."));
    assert!(p.rooted);
    assert!(p.parts.is_empty());
    let mut v = comps("a/b");
    v.push(PathComponent::RootDir);
    v.push(PathComponent::Normal("z".to_string()));
    let p = resolve_path(&v);
    assert!(p.rooted);
    assert_eq!(parts(&p), vec!["z"]);
    assert_eq!(resolve_path(&Vec::new()), ScriptPath { rooted: false, parts: Vec::new() });
}

#[test]
fn with_extension_replaces_last_extension() {
    assert_eq!(parts(&sp("/d/foo").with_extension("luau")), vec!["d", "foo.luau"]);
    assert_eq!(parts(&sp("/d/foo.lua").with_extension("luau")), vec!["d", "foo.luau"]);
    assert_eq!(parts(&sp("/d/a.b.c").with_extension("lua")), vec!["d", "a.b.lua"]);
    assert_eq!(parts(&sp("/d/.hidden").with_extension("lua")), vec!["d", ".hidden.lua"]);
    assert_eq!(parts(&sp("/d/a.").with_extension("luau")), vec!["d", "a.luau"]);
    let root = sp("/");
    assert_eq!(root.with_extension("luau"), root);
}

#[test]
fn append_extension_keeps_existing_extension() {
    assert_eq!(parts(&sp("x/foo").append_extension("luau")), vec!["x", "foo.luau"]);
    assert_eq!(parts(&sp("x/foo.lua").append_extension("luau")), vec!["x", "foo.lua.luau"]);
    assert_eq!(sp("").append_extension("lua"), sp(""));
}

#[test]
fn join_parent_and_relative() {
    assert_eq!(parts(&sp("/a").join("init")), vec!["a", "init"]);
    assert_eq!(sp("/a/b").parent(), sp("/a"));
    assert_eq!(sp("/").parent(), sp("/"));
    assert_eq!(sp("/w/x/y").relative_to(&sp("/w")), sp("x/y"));
    assert_eq!(sp("/other/y").relative_to(&sp("/w")), sp("/other/y"));
    assert_eq!(sp("/w").relative_to(&sp("/w/x")), sp("/w"));
    assert!(sp("/a/b").same_as(&sp("/a/c/../b")));
    assert!(!sp("/a/b").same_as(&sp("a/b")));
}
