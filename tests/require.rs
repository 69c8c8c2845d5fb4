use lune::{
    candidate_paths, request_kind, require_step, resolve_path, resolve_paths, CacheReply,
    GlobalsContext, GlobalsContextBuilder, PathComponent, ProbeOutcome, RequestKind,
    RequireAction, RequireCache, ScriptPath,
};

fn comps(s: &str) -> Vec<PathComponent> {
    let mut v = Vec::new();
    if s.starts_with('/') {
        v.push(PathComponent::RootDir);
    }
    for part in s.split('/').filter(|p| !p.is_empty()) {
        v.push(match part {
            "." => PathComponent::CurDir,
            ".." => PathComponent::ParentDir,
            name => PathComponent::Normal(name.to_string()),
        });
    }
    v
}

fn sp(s: &str) -> ScriptPath {
    resolve_path(&comps(s))
}

type Outcome = Result<String, String>;

/// Runs a request to its end against a made-up disk, counting the loads it
/// starts.
fn drive(
    ctx: &GlobalsContext<()>,
    cache: &mut RequireCache<Outcome>,
    abs: &ScriptPath,
    rel: &ScriptPath,
    files: &[&str],
    failing: &[&str],
    waiter: u64,
) -> RequireAction {
    let mut probes = Vec::new();
    loop {
        match require_step(ctx, cache, abs, rel, &probes, waiter) {
            RequireAction::Probe(a, _) => {
                let outcome = if failing.iter().any(|f| sp(f) == a) {
                    ProbeOutcome::Failed
                } else if files.iter().any(|f| sp(f) == a) {
                    ProbeOutcome::Exists
                } else {
                    ProbeOutcome::Missing
                };
                probes.push(outcome);
            }
            other => return other,
        }
    }
}

fn empty_ctx() -> GlobalsContext<()> {
    GlobalsContextBuilder::new().build()
}

fn is_load(a: &RequireAction) -> bool {
    matches!(a, RequireAction::LoadFile(..) | RequireAction::LoadVirtual(..))
}

#[test]
fn request_a_loads_a_luau_once() {
    let ctx = empty_ctx();
    let mut cache: RequireCache<Outcome> = RequireCache::new();
    let (abs, rel) = resolve_paths(&sp("/w"), &sp("/w/main.luau"), &comps("./a"));
    assert_eq!(abs, sp("/w/a"));
    assert_eq!(rel, sp("a"));
    let files = ["/w/a.luau"];
    let mut loads = 0;
    let first = drive(&ctx, &mut cache, &abs, &rel, &files, &[], 1);
    match &first {
        RequireAction::LoadFile(a, r) => {
            assert_eq!(*a, sp("/w/a.luau"));
            assert_eq!(*r, sp("a.luau"));
            loads += 1;
            assert!(cache.is_pending(a));
            let woken = cache.finish_load(a, Ok("module a".to_string()));
            assert!(woken.is_empty());
        }
        other => panic!("unexpected {:?}", other),
    }
    assert!(cache.is_cached(&sp("/w/a.luau")));
    let second = drive(&ctx, &mut cache, &abs, &rel, &files, &[], 2);
    if is_load(&second) {
        loads += 1;
    }
    match &second {
        RequireAction::FromCache(p) => {
            assert_eq!(*p, sp("/w/a.luau"));
            assert_eq!(cache.get_from_cache(p), Some(&Ok("module a".to_string())));
        }
        other => panic!("unexpected {:?}", other),
    }
    assert_eq!(loads, 1);
}

#[test]
fn luau_sibling_wins_over_lua() {
    let ctx = empty_ctx();
    let mut cache: RequireCache<Outcome> = RequireCache::new();
    let a = drive(&ctx, &mut cache, &sp("/w/m"), &sp("m"), &["/w/m.luau"], &[], 1);
    assert!(matches!(a, RequireAction::LoadFile(p, _) if p == sp("/w/m.luau")));
    let mut cache: RequireCache<Outcome> = RequireCache::new();
    let a = drive(&ctx, &mut cache, &sp("/w/m"), &sp("m"), &["/w/m.lua", "/w/m.luau"], &[], 1);
    assert!(matches!(a, RequireAction::LoadFile(p, _) if p == sp("/w/m.luau")));
    let mut cache: RequireCache<Outcome> = RequireCache::new();
    let a = drive(&ctx, &mut cache, &sp("/w/m"), &sp("m"), &["/w/m.lua"], &[], 1);
    assert!(matches!(a, RequireAction::LoadFile(p, _) if p == sp("/w/m.lua")));
}

#[test]
fn exact_file_comes_first() {
    let ctx = empty_ctx();
    let mut cache: RequireCache<Outcome> = RequireCache::new();
    let a = drive(&ctx, &mut cache, &sp("/w/m.luau"), &sp("m.luau"), &["/w/m.luau", "/w/m.luau.luau"], &[], 1);
    assert!(matches!(a, RequireAction::LoadFile(p, r) if p == sp("/w/m.luau") && r == sp("m.luau")));
}

#[test]
fn init_lua_is_the_last_resort() {
    let ctx = empty_ctx();
    let mut cache: RequireCache<Outcome> = RequireCache::new();
    let a = drive(&ctx, &mut cache, &sp("/w/pkg"), &sp("pkg"), &["/w/pkg/init.lua"], &[], 1);
    assert!(matches!(a, RequireAction::LoadFile(p, r) if p == sp("/w/pkg/init.lua") && r == sp("pkg/init.lua")));
    let mut cache: RequireCache<Outcome> = RequireCache::new();
    let a = drive(&ctx, &mut cache, &sp("/w/pkg"), &sp("pkg"), &["/w/pkg/init.lua", "/w/pkg/init.luau"], &[], 1);
    assert!(matches!(a, RequireAction::LoadFile(p, _) if p == sp("/w/pkg/init.luau")));
}

#[test]
fn virtual_script_wins_over_disk() {
    let mut b = GlobalsContextBuilder::new();
    b.with_script(sp("/w/v.luau"), b"return 2000".to_vec());
    let ctx: GlobalsContext<()> = b.build();
    let mut cache: RequireCache<Outcome> = RequireCache::new();
    let mut probes = Vec::new();
    probes.push(ProbeOutcome::Exists);
    let a = require_step(&ctx, &mut cache, &sp("/w/v"), &sp("v"), &probes, 1);
    match a {
        RequireAction::LoadVirtual(p, bytes) => {
            assert_eq!(p, sp("/w/v"));
            assert_eq!(bytes, b"return 2000".to_vec());
        }
        other => panic!("unexpected {:?}", other),
    }
    let again = require_step(&ctx, &mut cache, &sp("/w/v"), &sp("v"), &Vec::new(), 2);
    assert!(matches!(again, RequireAction::Await(p) if p == sp("/w/v")));
}

#[test]
fn missing_module_reports_relative_path() {
    let ctx = empty_ctx();
    let mut cache: RequireCache<Outcome> = RequireCache::new();
    let a = drive(&ctx, &mut cache, &sp("/w/x/missing"), &sp("x/missing"), &[], &[], 1);
    assert!(matches!(a, RequireAction::NotFound(r) if r == sp("x/missing")));
}

#[test]
fn other_io_error_stops_the_search() {
    let ctx = empty_ctx();
    let mut cache: RequireCache<Outcome> = RequireCache::new();
    let a = drive(&ctx, &mut cache, &sp("/w/m"), &sp("m"), &["/w/m.lua"], &["/w/m.luau"], 1);
    assert!(matches!(a, RequireAction::IoFailure(r) if r == sp("m.luau")));
    assert!(!cache.is_pending(&sp("/w/m.lua")));
}

#[test]
fn waiters_share_one_load() {
    let ctx = empty_ctx();
    let mut cache: RequireCache<Outcome> = RequireCache::new();
    let files = ["/w/m.luau"];
    let first = drive(&ctx, &mut cache, &sp("/w/m"), &sp("m"), &files, &[], 1);
    assert!(matches!(first, RequireAction::LoadFile(..)));
    for task in [2u64, 3, 4] {
        let a = drive(&ctx, &mut cache, &sp("/w/m"), &sp("m"), &files, &[], task);
        assert!(matches!(a, RequireAction::Await(p) if p == sp("/w/m.luau")));
    }
    let woken = cache.finish_load(&sp("/w/m.luau"), Err("syntax error".to_string()));
    assert_eq!(woken, vec![2, 3, 4]);
    assert_eq!(cache.get_from_cache(&sp("/w/m.luau")), Some(&Err("syntax error".to_string())));
    let later = drive(&ctx, &mut cache, &sp("/w/m"), &sp("m"), &files, &[], 5);
    assert!(matches!(later, RequireAction::FromCache(p) if p == sp("/w/m.luau")));
    assert_eq!(cache.get_from_cache(&sp("/w/m.luau")), Some(&Err("syntax error".to_string())));
}

#[test]
fn cache_replies() {
    let mut cache: RequireCache<u8> = RequireCache::new();
    let p = sp("/a");
    assert!(!cache.is_cached(&p) && !cache.is_pending(&p));
    assert_eq!(cache.request(&p, 1), CacheReply::Load);
    assert_eq!(cache.request(&p, 2), CacheReply::Wait);
    assert_eq!(cache.get_from_cache(&p), None);
    assert_eq!(cache.finish_load(&p, 7), vec![2]);
    assert_eq!(cache.request(&p, 3), CacheReply::Cached);
    assert_eq!(cache.get_from_cache(&p), Some(&7));
    assert_eq!(cache.request(&sp("/b"), 4), CacheReply::Load);
}

#[test]
fn request_kinds() {
    assert_eq!(request_kind("@lune/fs"), RequestKind::Library("lune".to_string(), "fs".to_string()));
    assert_eq!(request_kind("@a/b/c"), RequestKind::Library("a".to_string(), "b/c".to_string()));
    assert_eq!(request_kind("@lune"), RequestKind::Malformed);
    assert_eq!(request_kind("./a"), RequestKind::Path);
    assert_eq!(request_kind(""), RequestKind::Path);
}

#[test]
fn paths_of_a_request() {
    let (abs, rel) = resolve_paths(&sp("/w"), &sp("/w/dir/s.luau"), &comps("./a"));
    assert_eq!(abs, sp("/w/dir/a"));
    assert_eq!(rel, sp("dir/a"));
    let (abs, rel) = resolve_paths(&sp("/w"), &resolve_path(&comps("main.luau")), &comps("../x"));
    assert_eq!(abs, sp("/x"));
    assert_eq!(rel, sp("/x"));
    let (abs, _) = resolve_paths(&sp("/w"), &sp("/w/s.luau"), &comps("/abs/m"));
    assert_eq!(abs, sp("/abs/m"));
}

#[test]
fn candidates_in_search_order() {
    let c = candidate_paths(&sp("/w/m"), &sp("m"));
    let abs: Vec<ScriptPath> = c.iter().map(|x| x.0.clone()).collect();
    assert_eq!(
        abs,
        vec![sp("/w/m"), sp("/w/m.luau"), sp("/w/m.lua"), sp("/w/m/init.luau"), sp("/w/m/init.lua")]
    );
    assert_eq!(c[4].1, sp("m/init.lua"));
}
