use lune::{resolve_path, GlobalsContextBuilder, LuneModuleCreator, PathComponent, ScriptPath};

fn sp(s: &str) -> ScriptPath {
    let mut v = vec![PathComponent::RootDir];
    for part in s.split('/').filter(|p| !p.is_empty()) {
        v.push(PathComponent::Normal(part.to_string()));
    }
    resolve_path(&v)
}

type Creator = LuneModuleCreator<u32, &'static str>;

#[test]
fn with_alias_registers_modules() {
    let mut b: GlobalsContextBuilder<Creator> = GlobalsContextBuilder::new();
    let r: Result<(), String> = b.with_alias(
        "custom",
        Ok(vec![
            ("number".to_string(), LuneModuleCreator::LuaValue("6009")),
            ("pixels".to_string(), LuneModuleCreator::LuaTable(1)),
        ]),
    );
    assert!(r.is_ok());
    let ctx = b.build();
    assert!(matches!(ctx.get_module("custom", "number"), Some(LuneModuleCreator::LuaValue("6009"))));
    assert!(matches!(ctx.get_module("custom", "pixels"), Some(LuneModuleCreator::LuaTable(1))));
    assert!(ctx.get_module("custom", "missing").is_none());
    assert!(ctx.get_module("lune", "number").is_none());
    let bucket = ctx.get_alias("custom").unwrap();
    assert_eq!(bucket.alias, "custom");
    assert_eq!(bucket.children.len(), 2);
    assert!(ctx.get_alias("other").is_none());
}

#[test]
fn failed_handler_adds_nothing() {
    let mut b: GlobalsContextBuilder<Creator> = GlobalsContextBuilder::new();
    let r = b.with_alias("broken", Err("handler failed".to_string()));
    assert_eq!(r, Err("handler failed".to_string()));
    let ctx = b.build();
    assert!(ctx.get_alias("broken").is_none());
}

#[test]
fn empty_alias_still_exists() {
    let mut b: GlobalsContextBuilder<Creator> = GlobalsContextBuilder::new();
    let r: Result<(), ()> = b.with_alias("lune", Ok(Vec::new()));
    assert!(r.is_ok());
    let ctx = b.build();
    assert!(ctx.get_alias("lune").is_some());
    assert!(ctx.get_module("lune", "fs").is_none());
}

#[test]
fn later_registration_wins_and_aliases_merge() {
    let mut b: GlobalsContextBuilder<Creator> = GlobalsContextBuilder::new();
    b.register("lune", "fs", LuneModuleCreator::LuaTable(1));
    b.register("lune", "net", LuneModuleCreator::LuaTable(2));
    let r: Result<(), ()> = b.with_alias("lune", Ok(vec![("fs".to_string(), LuneModuleCreator::LuaTable(3))]));
    assert!(r.is_ok());
    let ctx = b.build();
    assert!(matches!(ctx.get_module("lune", "fs"), Some(LuneModuleCreator::LuaTable(3))));
    assert!(matches!(ctx.get_module("lune", "net"), Some(LuneModuleCreator::LuaTable(2))));
}

#[test]
fn get_script_probes_extensions_in_order() {
    let mut b: GlobalsContextBuilder<Creator> = GlobalsContextBuilder::new();
    b.with_script(sp("/w/a.lua"), b"lua".to_vec());
    b.with_script(sp("/w/a.luau"), b"luau".to_vec());
    b.with_script(sp("/w/exact"), b"exact".to_vec());
    b.with_script(sp("/w/only.lua"), b"only lua".to_vec());
    let ctx = b.build();
    assert_eq!(ctx.get_script(&sp("/w/a")).unwrap(), &b"luau".to_vec());
    assert_eq!(ctx.get_script(&sp("/w/exact")).unwrap(), &b"exact".to_vec());
    assert_eq!(ctx.get_script(&sp("/w/only")).unwrap(), &b"only lua".to_vec());
    assert_eq!(ctx.get_script(&sp("/w/a.txt")).unwrap(), &b"luau".to_vec());
    assert!(ctx.get_script(&sp("/w/none")).is_none());
}

#[test]
fn with_script_replaces_same_path() {
    let mut b: GlobalsContextBuilder<Creator> = GlobalsContextBuilder::new();
    b.with_script(sp("/w/s"), b"first".to_vec());
    b.with_script(sp("/w/s"), b"second".to_vec());
    let ctx = b.build();
    assert_eq!(ctx.get_script(&sp("/w/s")).unwrap(), &b"second".to_vec());
}
