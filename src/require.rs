//! Resolution of `require` requests: which file or virtual script a request
//! names, in which order the candidates are tried, and how the cache decides
//! between reusing an outcome, waiting for a load, and starting one.
//!
//! The resolver does no I/O. `require_step` is called with what the caller
//! has learnt so far about the candidates on disk and says what to do next:
//! probe the next candidate, load one, wait, reuse the cache, or fail.
use vstd::prelude::*;
use vstd::set::Set;
use crate::cache::{CacheReply, CacheState, PathView, RequireCache, request_effect};
use crate::context::{GlobalsContext, store_lookup};
use crate::path::{
    PathComponent, ScriptPath, parent_of, path_append_extension, path_join, relative_to, resolve_onto,
    resolved_from,
};

verus! {

/// What a probe of a candidate path on disk found.
#[derive(Debug, Clone, Copy, PartialEq, Eq)]
pub enum ProbeOutcome {
    /// A file is there.
    Exists,
    /// No file is there: the next candidate is tried.
    Missing,
    /// Reading it failed for another reason: resolution stops.
    Failed,
}

/// The next thing to do for a request.
#[derive(Debug)]
pub enum RequireAction {
    /// The module at this path has loaded: reuse its outcome.
    FromCache(ScriptPath),
    /// The module at this path is loading: the task waits for it.
    Await(ScriptPath),
    /// Load the virtual script at this path, with these bytes.
    LoadVirtual(ScriptPath, Vec<u8>),
    /// Look on disk for this candidate (absolute, relative), then call again
    /// with the outcome added.
    Probe(ScriptPath, ScriptPath),
    /// Load the file at this candidate (absolute, relative).
    LoadFile(ScriptPath, ScriptPath),
    /// No candidate exists; the relative path of the request.
    NotFound(ScriptPath),
    /// Probing this candidate (relative path) failed.
    IoFailure(ScriptPath),
}

/// `RequireAction` as the contracts see it.
pub enum Step {
    FromCache(PathView),
    Await(PathView),
    LoadVirtual(PathView, Seq<u8>),
    Probe(PathView, PathView),
    LoadFile(PathView, PathView),
    NotFound(PathView),
    IoFailure(PathView),
}

impl View for RequireAction {
    type V = Step;

    open spec fn view(&self) -> Step {
        match self {
            RequireAction::FromCache(p) => Step::FromCache(p@),
            RequireAction::Await(p) => Step::Await(p@),
            RequireAction::LoadVirtual(p, b) => Step::LoadVirtual(p@, b@),
            RequireAction::Probe(a, r) => Step::Probe(a@, r@),
            RequireAction::LoadFile(a, r) => Step::LoadFile(a@, r@),
            RequireAction::NotFound(r) => Step::NotFound(r@),
            RequireAction::IoFailure(r) => Step::IoFailure(r@),
        }
    }
}

/// What a request string asks for.
#[derive(Debug, Clone, PartialEq, Eq)]
pub enum RequestKind {
    /// `@alias/name`: a module of the library registry.
    Library(String, String),
    /// Starts with `@` but has no `/` after the alias.
    Malformed,
    /// Anything else: a path, relative to the requiring script.
    Path,
}

/// Index of the first `/` in `s` at or after `i`, or the length of `s`.
pub open spec fn first_slash(s: Seq<char>, i: int) -> int
    decreases s.len() - i,
{
    if i < 0 || i >= s.len() {
        s.len() as int
    } else if s[i] == '/' {
        i
    } else {
        first_slash(s, i + 1)
    }
}

/// The alias and module name of a library request `@alias/name`: the alias
/// ends at the first `/`.
pub open spec fn library_request(s: Seq<char>) -> Option<(Seq<char>, Seq<char>)> {
    if s.len() > 0 && s[0] == '@' && first_slash(s, 1) < s.len() {
        let k = first_slash(s, 1);
        Some((s.subrange(1, k), s.subrange(k + 1, s.len() as int)))
    } else {
        None
    }
}

/// Sorts a request string into a library request, a malformed alias, or a
/// path.
pub fn request_kind(request: &str) -> (r: RequestKind)
    ensures
        match r {
            RequestKind::Library(alias, name) => library_request(request@) == Some((alias@, name@)),
            RequestKind::Malformed => library_request(request@) is None && request@.len() > 0
                && request@[0] == '@',
            RequestKind::Path => !(request@.len() > 0 && request@[0] == '@'),
        },
{
    let len = request.unicode_len();
    if len == 0 || request.get_char(0) != '@' {
        return RequestKind::Path;
    }
    let mut k: usize = 1;
    while k < len && request.get_char(k) != '/'
        invariant
            1 <= k <= len,
            len == request@.len(),
            first_slash(request@, 1) == first_slash(request@, k as int),
        decreases len - k,
    {
        k = k + 1;
    }
    if k >= len {
        return RequestKind::Malformed;
    }
    let alias = String::from_str(request.substring_char(1, k));
    let name = String::from_str(request.substring_char(k + 1, len));
    RequestKind::Library(alias, name)
}

/// The directory a path request is resolved from: that of the requiring
/// script, under `cwd` when the script's path is relative.
pub open spec fn request_base(cwd: PathView, source: PathView) -> PathView {
    let dir = parent_of(source);
    if dir.0 {
        dir
    } else {
        (cwd.0, cwd.1 + dir.1)
    }
}

/// The absolute path that a path request names, and the same path relative
/// to `cwd` for messages. `source` is the path of the requiring script.
pub fn resolve_paths(cwd: &ScriptPath, source: &ScriptPath, request: &Vec<PathComponent>) -> (r: (
    ScriptPath,
    ScriptPath,
))
    ensures
        r.0@ == resolved_from(request_base(cwd@, source@), request@),
        r.1@ == relative_to(r.0@, cwd@),
{
    let dir = source.parent();
    let base = if dir.rooted {
        dir
    } else {
        let mut b = cwd.copied();
        proof {
            assert(b.parts.len() == b@.1.len() && cwd.parts.len() == cwd@.1.len());
            assert forall|j: int| 0 <= j < cwd.parts.len() implies b.parts@[j]@
                == cwd.parts@[j]@ by {
                assert(b@.1[j] == cwd@.1[j]);
            }
        }
        let mut i: usize = 0;
        while i < dir.parts.len()
            invariant
                i <= dir.parts.len(),
                b.rooted == cwd.rooted,
                b.parts.len() == cwd.parts.len() + i,
                forall|j: int| 0 <= j < cwd.parts.len() ==> b.parts@[j]@ == cwd.parts@[j]@,
                forall|j: int|
                    0 <= j < i ==> b.parts@[cwd.parts.len() + j]@ == dir.parts@[j]@,
            decreases dir.parts.len() - i,
        {
            b.parts.push(dir.parts[i].clone());
            i = i + 1;
        }
        assert(b@.1 =~= cwd@.1 + dir@.1);
        b
    };
    assert(base@ == request_base(cwd@, source@));
    let abs = resolve_onto(base, request);
    let rel = abs.relative_to(cwd);
    (abs, rel)
}

/// The paths tried on disk, in order: the path itself, with `.luau`, with
/// `.lua`, then `init.luau` and `init.lua` inside it. Each is an (absolute,
/// relative) pair.
pub open spec fn candidates(abs: PathView, rel: PathView) -> Seq<(PathView, PathView)> {
    let abs_init = path_join(abs, "init"@);
    let rel_init = path_join(rel, "init"@);
    seq![
        (abs, rel),
        (path_append_extension(abs, "luau"@), path_append_extension(rel, "luau"@)),
        (path_append_extension(abs, "lua"@), path_append_extension(rel, "lua"@)),
        (path_append_extension(abs_init, "luau"@), path_append_extension(rel_init, "luau"@)),
        (path_append_extension(abs_init, "lua"@), path_append_extension(rel_init, "lua"@)),
    ]
}

/// What the cache makes of a path that is known to exist.
pub open spec fn cached_step<T>(c: Map<PathView, CacheState<T>>, p: PathView) -> Step {
    if c[p] is Ready {
        Step::FromCache(p)
    } else {
        Step::Await(p)
    }
}

/// The search over the candidates from index `i` on: a candidate in the
/// cache is taken from it; otherwise the probe decides, and a candidate not
/// probed yet is asked for.
pub open spec fn search<T>(
    c: Map<PathView, CacheState<T>>,
    cands: Seq<(PathView, PathView)>,
    rel: PathView,
    probes: Seq<ProbeOutcome>,
    i: int,
) -> Step
    decreases cands.len() - i,
{
    if i < 0 || i >= cands.len() {
        Step::NotFound(rel)
    } else if c.contains_key(cands[i].0) {
        cached_step(c, cands[i].0)
    } else if i >= probes.len() {
        Step::Probe(cands[i].0, cands[i].1)
    } else {
        match probes[i] {
            ProbeOutcome::Exists => Step::LoadFile(cands[i].0, cands[i].1),
            ProbeOutcome::Missing => search(c, cands, rel, probes, i + 1),
            ProbeOutcome::Failed => Step::IoFailure(cands[i].1),
        }
    }
}

/// The step for a request of `abs` (shown as `rel`): the virtual store
/// first, then the candidates on disk.
pub open spec fn decide<T>(
    st: Map<PathView, Seq<u8>>,
    c: Map<PathView, CacheState<T>>,
    abs: PathView,
    rel: PathView,
    probes: Seq<ProbeOutcome>,
) -> Step {
    match store_lookup(st, abs) {
        Some(bytes) => if c.contains_key(abs) {
            cached_step(c, abs)
        } else {
            Step::LoadVirtual(abs, bytes)
        },
        None => search(c, candidates(abs, rel), rel, probes, 0),
    }
}

/// The path whose cache entry a step uses, if any.
pub open spec fn step_target(s: Step) -> Option<PathView> {
    match s {
        Step::FromCache(p) => Some(p),
        Step::Await(p) => Some(p),
        Step::LoadVirtual(p, _) => Some(p),
        Step::LoadFile(p, _) => Some(p),
        _ => None,
    }
}

pub open spec fn pair_views(v: Seq<(ScriptPath, ScriptPath)>) -> Seq<(PathView, PathView)> {
    v.map_values(|c: (ScriptPath, ScriptPath)| (c.0@, c.1@))
}

/// The candidate paths for a request, in the order they are tried.
pub fn candidate_paths(abs: &ScriptPath, rel: &ScriptPath) -> (r: Vec<(ScriptPath, ScriptPath)>)
    ensures
        pair_views(r@) == candidates(abs@, rel@),
{
    let abs_init = abs.join("init");
    let rel_init = rel.join("init");
    let mut r: Vec<(ScriptPath, ScriptPath)> = Vec::new();
    r.push((abs.copied(), rel.copied()));
    r.push((abs.append_extension("luau"), rel.append_extension("luau")));
    r.push((abs.append_extension("lua"), rel.append_extension("lua")));
    r.push((abs_init.append_extension("luau"), rel_init.append_extension("luau")));
    r.push((abs_init.append_extension("lua"), rel_init.append_extension("lua")));
    assert(pair_views(r@) =~= candidates(abs@, rel@));
    r
}

fn copy_bytes(b: &Vec<u8>) -> (r: Vec<u8>)
    ensures
        r@ == b@,
{
    let mut r: Vec<u8> = Vec::new();
    r.extend_from_slice(b.as_slice());
    assert(r@ =~= b@);
    r
}

/// Decides the next step of a request for `abs` (shown to users as `rel`),
/// given the outcomes of the probes made so far, one per candidate in
/// order. When the step uses a cache entry, the request is recorded there
/// for task `waiter`: a load starts as pending, a wait joins the waiters.
pub fn require_step<F, T>(
    ctx: &GlobalsContext<F>,
    cache: &mut RequireCache<T>,
    abs: &ScriptPath,
    rel: &ScriptPath,
    probes: &Vec<ProbeOutcome>,
    waiter: u64,
) -> (r: RequireAction)
    ensures
        r@ == decide(ctx.script_store(), old(cache)@, abs@, rel@, probes@),
        match step_target(r@) {
            Some(p) => final(cache)@ == request_effect(old(cache)@, p, waiter).0,
            None => final(cache)@ == old(cache)@,
        },
{
    if let Some(bytes) = ctx.get_script(abs) {
        let reply = cache.request(abs, waiter);
        return match reply {
            CacheReply::Cached => RequireAction::FromCache(abs.copied()),
            CacheReply::Wait => RequireAction::Await(abs.copied()),
            CacheReply::Load => RequireAction::LoadVirtual(abs.copied(), copy_bytes(bytes)),
        };
    }
    let cands = candidate_paths(abs, rel);
    let ghost c = cache@;
    let ghost cs = candidates(abs@, rel@);
    let mut i: usize = 0;
    while i < cands.len()
        invariant
            pair_views(cands@) == cs,
            cs == candidates(abs@, rel@),
            cands.len() == 5,
            i <= 5,
            cache@ == c,
            c == old(cache)@,
            store_lookup(ctx.script_store(), abs@) is None,
            search(c, cs, rel@, probes@, 0) == search(c, cs, rel@, probes@, i as int),
        decreases 5 - i,
    {
        let a = &cands[i].0;
        let r = &cands[i].1;
        assert(a@ == cs[i as int].0 && r@ == cs[i as int].1);
        if cache.is_cached(a) || cache.is_pending(a) {
            let reply = cache.request(a, waiter);
            return match reply {
                CacheReply::Cached => RequireAction::FromCache(a.copied()),
                _ => RequireAction::Await(a.copied()),
            };
        }
        if i >= probes.len() {
            return RequireAction::Probe(a.copied(), r.copied());
        }
        match probes[i] {
            ProbeOutcome::Exists => {
                let _ = cache.request(a, waiter);
                return RequireAction::LoadFile(a.copied(), r.copied());
            },
            ProbeOutcome::Failed => {
                return RequireAction::IoFailure(r.copied());
            },
            ProbeOutcome::Missing => {},
        }
        i = i + 1;
    }
    RequireAction::NotFound(rel.copied())
}


/// Probes that report the files on disk: a candidate exists exactly when
/// `files` holds it.
pub open spec fn probes_from(files: Set<PathView>, cands: Seq<(PathView, PathView)>) -> Seq<
    ProbeOutcome,
> {
    cands.map_values(
        |c: (PathView, PathView)|
            if files.contains(c.0) {
                ProbeOutcome::Exists
            } else {
                ProbeOutcome::Missing
            },
    )
}

proof fn lemma_search_skips_missing<T>(
    c: Map<PathView, CacheState<T>>,
    abs: PathView,
    rel: PathView,
    files: Set<PathView>,
    i: int,
    k: int,
)
    requires
        0 <= i <= k < 5,
        c.contains_key(candidates(abs, rel)[k].0) || files.contains(candidates(abs, rel)[k].0),
        forall|j: int|
            0 <= j < k ==> !c.contains_key(#[trigger] candidates(abs, rel)[j].0) && !files.contains(
                candidates(abs, rel)[j].0,
            ),
    ensures
        search(c, candidates(abs, rel), rel, probes_from(files, candidates(abs, rel)), i)
            == if c.contains_key(candidates(abs, rel)[k].0) {
            cached_step(c, candidates(abs, rel)[k].0)
        } else {
            Step::LoadFile(candidates(abs, rel)[k].0, candidates(abs, rel)[k].1)
        },
    decreases k - i,
{
    let cs = candidates(abs, rel);
    if i < k {
        assert(!c.contains_key(cs[i].0) && !files.contains(cs[i].0));
        lemma_search_skips_missing(c, abs, rel, files, i + 1, k);
    }
}

/// With no virtual script for the request, and probes that report the files
/// on disk, the search stops at the first candidate, in search order, that
/// is in the cache or on disk: a cached one is served from the cache (or
/// waited for), one on disk is loaded. Candidates after it play no part.
pub proof fn lemma_first_existing_candidate<T>(
    st: Map<PathView, Seq<u8>>,
    c: Map<PathView, CacheState<T>>,
    abs: PathView,
    rel: PathView,
    files: Set<PathView>,
    k: int,
)
    requires
        store_lookup(st, abs) is None,
        0 <= k < 5,
        c.contains_key(candidates(abs, rel)[k].0) || files.contains(candidates(abs, rel)[k].0),
        forall|j: int|
            0 <= j < k ==> !c.contains_key(#[trigger] candidates(abs, rel)[j].0) && !files.contains(
                candidates(abs, rel)[j].0,
            ),
    ensures
        decide(st, c, abs, rel, probes_from(files, candidates(abs, rel))) == if c.contains_key(
            candidates(abs, rel)[k].0,
        ) {
            cached_step(c, candidates(abs, rel)[k].0)
        } else {
            Step::LoadFile(candidates(abs, rel)[k].0, candidates(abs, rel)[k].1)
        },
{
    lemma_search_skips_missing(c, abs, rel, files, 0, k);
}

/// A request for a path without its extension, where the file itself is
/// absent and its `.luau` sibling exists, loads the `.luau` file (whether
/// or not a `.lua` sibling exists), when neither path is in the cache yet.
pub proof fn lemma_luau_sibling_resolves<T>(
    st: Map<PathView, Seq<u8>>,
    c: Map<PathView, CacheState<T>>,
    abs: PathView,
    rel: PathView,
    files: Set<PathView>,
)
    requires
        store_lookup(st, abs) is None,
        !c.contains_key(abs),
        !c.contains_key(path_append_extension(abs, "luau"@)),
        !files.contains(abs),
        files.contains(path_append_extension(abs, "luau"@)),
    ensures
        decide(st, c, abs, rel, probes_from(files, candidates(abs, rel))) == Step::LoadFile(
            path_append_extension(abs, "luau"@),
            path_append_extension(rel, "luau"@),
        ),
{
    let cs = candidates(abs, rel);
    assert forall|j: int| 0 <= j < 1 implies !c.contains_key(#[trigger] cs[j].0) && !files.contains(
        cs[j].0,
    ) by {}
    lemma_first_existing_candidate(st, c, abs, rel, files, 1);
}

/// A repeated request whose `.luau` sibling has already loaded is answered
/// from the cache with that outcome, without loading anything, when the
/// requested path itself is neither cached nor on disk.
pub proof fn lemma_loaded_sibling_served_from_cache<T>(
    st: Map<PathView, Seq<u8>>,
    c: Map<PathView, CacheState<T>>,
    abs: PathView,
    rel: PathView,
    files: Set<PathView>,
    o: T,
)
    requires
        store_lookup(st, abs) is None,
        !c.contains_key(abs),
        !files.contains(abs),
        c.contains_key(path_append_extension(abs, "luau"@)),
        c[path_append_extension(abs, "luau"@)] == CacheState::Ready(o),
    ensures
        decide(st, c, abs, rel, probes_from(files, candidates(abs, rel))) == Step::FromCache(
            path_append_extension(abs, "luau"@),
        ),
        request_effect(c, path_append_extension(abs, "luau"@), 0).0 == c,
{
    let cs = candidates(abs, rel);
    assert forall|j: int| 0 <= j < 1 implies !c.contains_key(#[trigger] cs[j].0) && !files.contains(
        cs[j].0,
    ) by {}
    lemma_first_existing_candidate(st, c, abs, rel, files, 1);
}

/// When of all the candidates only `init.lua` inside the requested
/// directory exists, and none of the first four is cached, resolution falls
/// through to it.
pub proof fn lemma_init_lua_fallback<T>(
    st: Map<PathView, Seq<u8>>,
    c: Map<PathView, CacheState<T>>,
    abs: PathView,
    rel: PathView,
    files: Set<PathView>,
)
    requires
        store_lookup(st, abs) is None,
        forall|j: int|
            0 <= j < 4 ==> !c.contains_key(#[trigger] candidates(abs, rel)[j].0) && !files.contains(
                candidates(abs, rel)[j].0,
            ),
        !c.contains_key(path_append_extension(path_join(abs, "init"@), "lua"@)),
        files.contains(path_append_extension(path_join(abs, "init"@), "lua"@)),
    ensures
        decide(st, c, abs, rel, probes_from(files, candidates(abs, rel))) == Step::LoadFile(
            path_append_extension(path_join(abs, "init"@), "lua"@),
            path_append_extension(path_join(rel, "init"@), "lua"@),
        ),
{
    lemma_first_existing_candidate(st, c, abs, rel, files, 4);
}

/// A path that the virtual store holds is served from it, whatever is on
/// disk: the probes are never looked at, and the step is about the
/// requested path itself (from the cache, or a load of the stored bytes).
pub proof fn lemma_virtual_store_first<T>(
    st: Map<PathView, Seq<u8>>,
    c: Map<PathView, CacheState<T>>,
    abs: PathView,
    rel: PathView,
    probes: Seq<ProbeOutcome>,
    other: Seq<ProbeOutcome>,
)
    requires
        store_lookup(st, abs) is Some,
    ensures
        decide(st, c, abs, rel, probes) == decide(st, c, abs, rel, other),
        step_target(decide(st, c, abs, rel, probes)) == Some(abs),
        !c.contains_key(abs) ==> decide(st, c, abs, rel, probes) == Step::LoadVirtual(
            abs,
            store_lookup(st, abs)->0,
        ),
{
}

} // verus!
