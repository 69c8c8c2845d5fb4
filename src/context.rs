//! The library registry and the virtual script store, built once by
//! `GlobalsContextBuilder` and then read by every running script.
//!
//! Both are association lists: an entry pushed later takes precedence over
//! an earlier one with the same key, which gives "last write wins".
use vstd::prelude::*;
use crate::assoc::{Keyed, find_last, index_of_last, lemma_find_last_update, lemma_find_last_valid};
use crate::path::{ScriptPath, path_with_extension};

verus! {

/// What a library module is made from: a factory that builds a table, or
/// one that builds any value. The factories themselves run in the VM.
#[derive(Debug, Clone, Copy)]
pub enum LuneModuleCreator<T, V> {
    LuaTable(T),
    LuaValue(V),
}

/// The modules registered under one alias.
#[derive(Debug, Clone)]
pub struct LuneModule<F> {
    pub children: Vec<(String, F)>,
    pub alias: String,
}

impl<F> Keyed for LuneModule<F> {
    type Key = String;

    open spec fn key(&self) -> Seq<char> {
        self.alias@
    }

    fn has_key(&self, k: &String) -> (r: bool) {
        self.alias == *k
    }
}

/// The modules of one alias, by name.
pub open spec fn children_map<F>(s: Seq<(String, F)>) -> Map<Seq<char>, F> {
    Map::new(|k: Seq<char>| find_last(s, k) is Some, |k: Seq<char>| s[find_last(s, k)->0].1)
}

/// The registry: for each alias, its modules by name.
pub open spec fn registry<F>(s: Seq<LuneModule<F>>) -> Map<Seq<char>, Map<Seq<char>, F>> {
    Map::new(
        |a: Seq<char>| find_last(s, a) is Some,
        |a: Seq<char>| children_map(s[find_last(s, a)->0].children@),
    )
}

/// The registry after `factory` is registered as `name` under `alias`.
pub open spec fn registered<F>(
    r: Map<Seq<char>, Map<Seq<char>, F>>,
    alias: Seq<char>,
    name: Seq<char>,
    factory: F,
) -> Map<Seq<char>, Map<Seq<char>, F>> {
    let bucket = if r.contains_key(alias) {
        r[alias]
    } else {
        Map::empty()
    };
    r.insert(alias, bucket.insert(name, factory))
}

/// The registry with a bucket for `alias`, empty if it had none.
pub open spec fn with_bucket<F>(r: Map<Seq<char>, Map<Seq<char>, F>>, alias: Seq<char>) -> Map<
    Seq<char>,
    Map<Seq<char>, F>,
> {
    if r.contains_key(alias) {
        r
    } else {
        r.insert(alias, Map::empty())
    }
}

/// The registry after each entry of `entries` is registered under `alias`,
/// in order.
pub open spec fn registered_all<F>(
    r: Map<Seq<char>, Map<Seq<char>, F>>,
    alias: Seq<char>,
    entries: Seq<(String, F)>,
) -> Map<Seq<char>, Map<Seq<char>, F>>
    decreases entries.len(),
{
    if entries.len() == 0 {
        r
    } else {
        let prev = registered_all(r, alias, entries.drop_last());
        registered(prev, alias, entries.last().0@, entries.last().1)
    }
}

/// The virtual script store: script bytes by absolute path.
pub open spec fn store(s: Seq<(ScriptPath, Vec<u8>)>) -> Map<(bool, Seq<Seq<char>>), Seq<u8>> {
    Map::new(
        |p: (bool, Seq<Seq<char>>)| find_last(s, p) is Some,
        |p: (bool, Seq<Seq<char>>)| s[find_last(s, p)->0].1@,
    )
}

/// What the store gives for `p`: the exact path first, then the path with
/// the extension `luau`, then with `lua`.
pub open spec fn store_lookup(m: Map<(bool, Seq<Seq<char>>), Seq<u8>>, p: (bool, Seq<Seq<char>>)) -> Option<
    Seq<u8>,
> {
    let luau = path_with_extension(p, "luau"@);
    let lua = path_with_extension(p, "lua"@);
    if m.contains_key(p) {
        Some(m[p])
    } else if m.contains_key(luau) {
        Some(m[luau])
    } else if m.contains_key(lua) {
        Some(m[lua])
    } else {
        None
    }
}

proof fn lemma_children_push<F>(c: Seq<(String, F)>, e: (String, F))
    ensures
        children_map(c.push(e)) =~= children_map(c).insert(e.0@, e.1),
{
    let d = c.push(e);
    assert(d.drop_last() =~= c);
    assert forall|k: Seq<char>| #[trigger] find_last(c, k) is Some implies d[find_last(c, k)->0]
        == c[find_last(c, k)->0] by {
        lemma_find_last_valid(c, k);
    }
}

proof fn lemma_registry_push<F>(s: Seq<LuneModule<F>>, b: LuneModule<F>)
    ensures
        registry(s.push(b)) =~= registry(s).insert(b.alias@, children_map(b.children@)),
{
    let t = s.push(b);
    assert(t.drop_last() =~= s);
    assert forall|a: Seq<char>| #[trigger] find_last(s, a) is Some implies t[find_last(s, a)->0]
        == s[find_last(s, a)->0] by {
        lemma_find_last_valid(s, a);
    }
}

proof fn lemma_registry_update<F>(s: Seq<LuneModule<F>>, i: int, b: LuneModule<F>)
    requires
        0 <= i < s.len(),
        b.alias@ == s[i].alias@,
        find_last(s, b.alias@) == Some(i),
    ensures
        registry(s.update(i, b)) =~= registry(s).insert(b.alias@, children_map(b.children@)),
{
    let t = s.update(i, b);
    assert forall|a: Seq<char>| #[trigger] find_last(t, a) == find_last(s, a) by {
        lemma_find_last_update(s, i, b, a);
        lemma_find_last_valid(s, a);
    }
    lemma_find_last_update(s, i, b, b.alias@);
    lemma_find_last_valid(s, b.alias@);
    assert forall|a: Seq<char>| #[trigger] find_last(s, a) is Some && a != b.alias@ implies t[
        find_last(s, a)->0] == s[find_last(s, a)->0] by {
        lemma_find_last_valid(s, a);
    }
    assert(t[i] == b);
}

/// Registers `factory` as `name` under `alias`, creating the alias's bucket
/// when it has none.
fn register_in<F>(mods: &mut Vec<LuneModule<F>>, alias: &str, name: &str, factory: F)
    ensures
        registry(final(mods)@) == registered(registry(old(mods)@), alias@, name@, factory),
{
    let key = String::from_str(alias);
    let entry = (String::from_str(name), factory);
    proof {
        lemma_children_push(Seq::empty(), entry);
        lemma_find_last_valid(mods@, alias@);
    }
    match index_of_last(mods, &key) {
        Some(i) => {
            let mut bucket = mods.remove(i);
            let ghost old_children = bucket.children@;
            bucket.children.push(entry);
            mods.insert(i, bucket);
            proof {
                let s = old(mods)@;
                assert(mods@ =~= s.update(i as int, bucket));
                lemma_children_push(old_children, entry);
                assert(old_children == s[i as int].children@);
                assert(registry(s).contains_key(alias@));
                assert(registry(s)[alias@] == children_map(old_children));
                lemma_registry_update(s, i as int, bucket);
                assert(children_map(bucket.children@) == children_map(old_children).insert(
                    name@,
                    factory,
                ));
                assert(registry(mods@) == registered(registry(s), alias@, name@, factory));
            }
        },
        None => {
            let mut children: Vec<(String, F)> = Vec::new();
            children.push(entry);
            let bucket = LuneModule { children, alias: key };
            mods.push(bucket);
            proof {
                let s = old(mods)@;
                assert(children@ =~= Seq::<(String, F)>::empty().push(entry));
                lemma_registry_push(s, bucket);
                assert(children_map(Seq::<(String, F)>::empty()) =~= Map::empty());
                assert(!registry(s).contains_key(alias@));
                assert(children_map(bucket.children@) == Map::<Seq<char>, F>::empty().insert(
                    name@,
                    factory,
                ));
                assert(registry(mods@) == registered(registry(s), alias@, name@, factory));
            }
        },
    }
}

/// Makes sure that `alias` has a bucket, empty if it had none.
fn ensure_bucket<F>(mods: &mut Vec<LuneModule<F>>, alias: &str)
    ensures
        registry(final(mods)@) == with_bucket(registry(old(mods)@), alias@),
{
    let key = String::from_str(alias);
    proof {
        lemma_find_last_valid(mods@, alias@);
    }
    if index_of_last(mods, &key).is_none() {
        let bucket = LuneModule { children: Vec::new(), alias: key };
        mods.push(bucket);
        proof {
            lemma_registry_push(old(mods)@, bucket);
            assert(children_map(bucket.children@) =~= Map::empty());
            assert(registry(mods@) =~= with_bucket(registry(old(mods)@), alias@));
        }
    } else {
        assert(registry(mods@) =~= with_bucket(registry(old(mods)@), alias@));
    }
}

/// Builds a `GlobalsContext`: library aliases and virtual scripts are added
/// here, before anything runs.
pub struct GlobalsContextBuilder<F> {
    modules: Vec<LuneModule<F>>,
    scripts: Vec<(ScriptPath, Vec<u8>)>,
}

/// The registry and the virtual script store, frozen.
pub struct GlobalsContext<F> {
    pub modules: Vec<LuneModule<F>>,
    pub scripts: Vec<(ScriptPath, Vec<u8>)>,
}

impl<F> GlobalsContextBuilder<F> {
    /// The registry that this builder holds.
    pub closed spec fn libraries(&self) -> Map<Seq<char>, Map<Seq<char>, F>> {
        registry(self.modules@)
    }

    /// The virtual scripts that this builder holds.
    pub closed spec fn script_store(&self) -> Map<(bool, Seq<Seq<char>>), Seq<u8>> {
        store(self.scripts@)
    }

    /// An empty builder.
    pub fn new() -> (r: Self)
        ensures
            r.libraries() == Map::<Seq<char>, Map<Seq<char>, F>>::empty(),
            r.script_store() == Map::<(bool, Seq<Seq<char>>), Seq<u8>>::empty(),
    {
        let r = GlobalsContextBuilder { modules: Vec::new(), scripts: Vec::new() };
        assert(registry(r.modules@) =~= Map::empty());
        assert(store(r.scripts@) =~= Map::empty());
        r
    }

    /// Registers `factory` as `name` under `alias`; a module registered
    /// before under the same pair is replaced.
    pub fn register(&mut self, alias: &str, name: &str, factory: F)
        ensures
            final(self).libraries() == registered(old(self).libraries(), alias@, name@, factory),
            final(self).script_store() == old(self).script_store(),
    {
        register_in(&mut self.modules, alias, name, factory);
    }

    /// Adds the modules that a registration handler produced under `name`.
    /// When the handler failed, its error is returned and nothing is added.
    pub fn with_alias<E>(&mut self, name: &str, handled: Result<Vec<(String, F)>, E>) -> (r: Result<
        (),
        E,
    >)
        ensures
            match handled {
                Ok(entries) => r is Ok && final(self).libraries() == registered_all(
                    with_bucket(old(self).libraries(), name@),
                    name@,
                    entries@,
                ),
                Err(e) => r == Err::<(), E>(e) && final(self).libraries() == old(
                    self,
                ).libraries(),
            },
            final(self).script_store() == old(self).script_store(),
    {
        match handled {
            Err(e) => Err(e),
            Ok(entries) => {
                ensure_bucket(&mut self.modules, name);
                let ghost start = registry(self.modules@);
                let ghost all = entries@;
                let mut rest = entries;
                let ghost mut done: Seq<(String, F)> = Seq::empty();
                while rest.len() > 0
                    invariant
                        all == done + rest@,
                        registry(self.modules@) == registered_all(start, name@, done),
                        store(self.scripts@) == store(old(self).scripts@),
                    decreases rest.len(),
                {
                    let e = rest.remove(0);
                    let ghost eg = e;
                    assert(all =~= done.push(eg) + rest@);
                    register_in(&mut self.modules, name, e.0.as_str(), e.1);
                    proof {
                        assert(done.push(eg).drop_last() =~= done);
                        done = done.push(eg);
                    }
                }
                assert(all =~= done);
                Ok(())
            },
        }
    }

    /// Adds the script `content` at the absolute path `path`; a script
    /// added before at the same path is replaced.
    pub fn with_script(&mut self, path: ScriptPath, content: Vec<u8>)
        ensures
            final(self).script_store() == old(self).script_store().insert(path@, content@),
            final(self).libraries() == old(self).libraries(),
    {
        let ghost p = path@;
        let ghost c = content@;
        self.scripts.push((path, content));
        proof {
            let s = old(self).scripts@;
            let t = self.scripts@;
            assert(t.drop_last() =~= s);
            assert forall|q: (bool, Seq<Seq<char>>)| #[trigger] find_last(s, q) is Some implies t[
                find_last(s, q)->0] == s[find_last(s, q)->0] by {
                lemma_find_last_valid(s, q);
            }
            assert(store(t) =~= store(s).insert(p, c));
        }
    }

    /// Freezes the builder into a context.
    pub fn build(self) -> (r: GlobalsContext<F>)
        ensures
            r.libraries() == self.libraries(),
            r.script_store() == self.script_store(),
    {
        GlobalsContext { modules: self.modules, scripts: self.scripts }
    }
}

impl<F> GlobalsContext<F> {
    /// The registry: for each alias, its modules by name.
    pub open spec fn libraries(&self) -> Map<Seq<char>, Map<Seq<char>, F>> {
        registry(self.modules@)
    }

    /// The virtual script store.
    pub open spec fn script_store(&self) -> Map<(bool, Seq<Seq<char>>), Seq<u8>> {
        store(self.scripts@)
    }

    /// The bucket registered under alias `s`.
    pub fn get_alias(&self, s: &str) -> (r: Option<&LuneModule<F>>)
        ensures
            r is Some <==> self.libraries().contains_key(s@),
            r is Some ==> r->0.alias@ == s@ && children_map(r->0.children@)
                == self.libraries()[s@],
    {
        let key = String::from_str(s);
        proof {
            lemma_find_last_valid(self.modules@, s@);
        }
        match index_of_last(&self.modules, &key) {
            Some(i) => Some(&self.modules[i]),
            None => None,
        }
    }

    /// The factory registered as `name` under `alias`.
    pub fn get_module(&self, alias: &str, name: &str) -> (r: Option<&F>)
        ensures
            r is Some <==> (self.libraries().contains_key(alias@)
                && self.libraries()[alias@].contains_key(name@)),
            r is Some ==> *r->0 == self.libraries()[alias@][name@],
    {
        let alias_key = String::from_str(alias);
        let name_key = String::from_str(name);
        proof {
            lemma_find_last_valid(self.modules@, alias@);
        }
        match index_of_last(&self.modules, &alias_key) {
            Some(i) => {
                let bucket = &self.modules[i];
                proof {
                    lemma_find_last_valid(bucket.children@, name@);
                }
                match index_of_last(&bucket.children, &name_key) {
                    Some(j) => Some(&bucket.children[j].1),
                    None => None,
                }
            },
            None => None,
        }
    }

    /// The script stored for `abs_path`: under the path itself, else under
    /// the path with the extension `luau`, else with `lua`.
    pub fn get_script(&self, abs_path: &ScriptPath) -> (r: Option<&Vec<u8>>)
        ensures
            match r {
                Some(b) => store_lookup(self.script_store(), abs_path@) == Some(b@),
                None => store_lookup(self.script_store(), abs_path@) is None,
            },
    {
        if let Some(i) = index_of_last(&self.scripts, abs_path) {
            return Some(&self.scripts[i].1);
        }
        let luau = abs_path.with_extension("luau");
        if let Some(i) = index_of_last(&self.scripts, &luau) {
            return Some(&self.scripts[i].1);
        }
        let lua = abs_path.with_extension("lua");
        if let Some(i) = index_of_last(&self.scripts, &lua) {
            return Some(&self.scripts[i].1);
        }
        None
    }
}

} // verus!
