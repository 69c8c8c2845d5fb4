//! Paths as the resolver sees them: a flag for a rooted path and the names
//! of its parts, with `.` and `..` already resolved.
use vstd::prelude::*;

verus! {

/// One component of a path as written, before normalization.
#[derive(Debug, Clone, PartialEq, Eq)]
pub enum PathComponent {
    RootDir,
    CurDir,
    ParentDir,
    Normal(String),
}

/// A normalized path: whether it starts at the root, and its part names.
#[derive(Debug, Clone, PartialEq, Eq, Hash)]
pub struct ScriptPath {
    pub rooted: bool,
    pub parts: Vec<String>,
}

impl View for ScriptPath {
    type V = (bool, Seq<Seq<char>>);

    open spec fn view(&self) -> (bool, Seq<Seq<char>>) {
        (self.rooted, self.parts@.map_values(|s: String| s@))
    }
}

/// The path after one more component: the root starts over, `..` drops the
/// last name (if any), `.` changes nothing.
pub open spec fn resolve_step(p: (bool, Seq<Seq<char>>), c: PathComponent) -> (bool, Seq<Seq<char>>) {
    match c {
        PathComponent::RootDir => (true, Seq::empty()),
        PathComponent::CurDir => p,
        PathComponent::ParentDir => if p.1.len() > 0 {
            (p.0, p.1.drop_last())
        } else {
            p
        },
        PathComponent::Normal(name) => (p.0, p.1.push(name@)),
    }
}

/// The path reached from `start` by following the components `cs`.
pub open spec fn resolved_from(start: (bool, Seq<Seq<char>>), cs: Seq<PathComponent>) -> (bool, Seq<
    Seq<char>,
>)
    decreases cs.len(),
{
    if cs.len() == 0 {
        start
    } else {
        resolve_step(resolved_from(start, cs.drop_last()), cs.last())
    }
}

/// The normalized path that a list of components denotes.
pub open spec fn resolved(cs: Seq<PathComponent>) -> (bool, Seq<Seq<char>>) {
    resolved_from((false, Seq::empty()), cs)
}

/// The directory that holds `p` (the path itself when it has no parts).
pub open spec fn parent_of(p: (bool, Seq<Seq<char>>)) -> (bool, Seq<Seq<char>>) {
    if p.1.len() == 0 {
        p
    } else {
        (p.0, p.1.drop_last())
    }
}

/// `p` relative to `base` when `base` is a prefix of it, else `p` itself.
pub open spec fn relative_to(p: (bool, Seq<Seq<char>>), base: (bool, Seq<Seq<char>>)) -> (bool, Seq<
    Seq<char>,
>) {
    if p.0 == base.0 && base.1.len() <= p.1.len() && p.1.take(base.1.len() as int) == base.1 {
        (false, p.1.skip(base.1.len() as int))
    } else {
        p
    }
}

/// Where the stem of a file name ends: at its last `.` that is not its
/// first character, else at its end. Only positions before `i` are looked at.
pub open spec fn stem_end(name: Seq<char>, i: int) -> int
    decreases i,
{
    if i <= 1 {
        name.len() as int
    } else if name[i - 1] == '.' {
        i - 1
    } else {
        stem_end(name, i - 1)
    }
}

/// A file name with its extension replaced by `ext` (or `ext` added when it
/// has none).
pub open spec fn with_extension_name(name: Seq<char>, ext: Seq<char>) -> Seq<char> {
    name.take(stem_end(name, name.len() as int)) + seq!['.'] + ext
}

/// A file name with `.ext` added after whatever it already has.
pub open spec fn appended_extension_name(name: Seq<char>, ext: Seq<char>) -> Seq<char> {
    name + seq!['.'] + ext
}

/// A path whose last part is changed by `f`; a path without parts is kept.
pub open spec fn map_file_name(
    p: (bool, Seq<Seq<char>>),
    f: spec_fn(Seq<char>) -> Seq<char>,
) -> (bool, Seq<Seq<char>>) {
    if p.1.len() == 0 {
        p
    } else {
        (p.0, p.1.drop_last().push(f(p.1.last())))
    }
}

pub open spec fn path_with_extension(p: (bool, Seq<Seq<char>>), ext: Seq<char>) -> (bool, Seq<
    Seq<char>,
>) {
    map_file_name(p, |name: Seq<char>| with_extension_name(name, ext))
}

pub open spec fn path_append_extension(p: (bool, Seq<Seq<char>>), ext: Seq<char>) -> (bool, Seq<
    Seq<char>,
>) {
    map_file_name(p, |name: Seq<char>| appended_extension_name(name, ext))
}

pub open spec fn path_join(p: (bool, Seq<Seq<char>>), name: Seq<char>) -> (bool, Seq<Seq<char>>) {
    (p.0, p.1.push(name))
}

/// Normalizes a path given by its components: `..` drops the name before
/// it, `.` is skipped, the root starts the path over.
pub fn resolve_path(components: &Vec<PathComponent>) -> (r: ScriptPath)
    ensures
        r@ == resolved(components@),
{
    let start = ScriptPath { rooted: false, parts: Vec::new() };
    assert(start@.1 =~= Seq::<Seq<char>>::empty());
    resolve_onto(start, components)
}

/// Follows `components` from the path `start`.
pub fn resolve_onto(start: ScriptPath, components: &Vec<PathComponent>) -> (r: ScriptPath)
    ensures
        r@ == resolved_from(start@, components@),
{
    let mut r = start;
    let mut i: usize = 0;
    assert(components@.take(0) =~= Seq::<PathComponent>::empty());
    while i < components.len()
        invariant
            i <= components.len(),
            r@ == resolved_from(start@, components@.take(i as int)),
        decreases components.len() - i,
    {
        assert(components@.take(i as int + 1).drop_last() =~= components@.take(i as int));
        let ghost before = r@;
        match &components[i] {
            PathComponent::RootDir => {
                r = ScriptPath { rooted: true, parts: Vec::new() };
            },
            PathComponent::CurDir => {},
            PathComponent::ParentDir => {
                if r.parts.len() > 0 {
                    r.parts.pop();
                }
            },
            PathComponent::Normal(name) => {
                r.parts.push(name.clone());
            },
        }
        assert(r@ =~= resolve_step(before, components@[i as int]));
        i = i + 1;
    }
    assert(components@.take(i as int) =~= components@);
    r
}

/// Index where the stem of `name` ends, as `stem_end` says.
fn find_stem_end(name: &str) -> (r: usize)
    ensures
        r as int == stem_end(name@, name@.len() as int),
        r <= name@.len(),
{
    let len = name.unicode_len();
    let mut i: usize = len;
    while i > 1
        invariant
            len == name@.len(),
            i <= len,
            stem_end(name@, len as int) == stem_end(name@, i as int),
        decreases i,
    {
        if name.get_char(i - 1) == '.' {
            return i - 1;
        }
        i = i - 1;
    }
    len
}

/// `stem + "." + ext` as a new string.
fn dotted(stem: &str, ext: &str) -> (r: String)
    ensures
        r@ == stem@ + seq!['.'] + ext@,
{
    let mut r = String::from_str(stem);
    r.append(".");
    proof {
        reveal_strlit(".");
    }
    r.append(ext);
    r
}

impl ScriptPath {
    /// The directory that holds this path.
    pub fn parent(&self) -> (r: ScriptPath)
        ensures
            r@ == parent_of(self@),
    {
        let mut r = self.copied();
        if r.parts.len() > 0 {
            r.parts.pop();
            assert(r@.1 =~= self@.1.drop_last());
        }
        r
    }

    /// This path relative to `base` when `base` is a prefix of it, else a
    /// copy of it.
    pub fn relative_to(&self, base: &ScriptPath) -> (r: ScriptPath)
        ensures
            r@ == relative_to(self@, base@),
    {
        let n = base.parts.len();
        if self.rooted != base.rooted || n > self.parts.len() {
            return self.copied();
        }
        let mut i: usize = 0;
        while i < n
            invariant
                i <= n,
                n == base.parts.len(),
                n <= self.parts.len(),
                forall|j: int| 0 <= j < i ==> self.parts@[j]@ == base.parts@[j]@,
            decreases n - i,
        {
            if self.parts[i] != base.parts[i] {
                proof {
                    if self@.1.take(n as int) == base@.1 {
                        assert(self@.1.take(n as int)[i as int] == base@.1[i as int]);
                    }
                }
                return self.copied();
            }
            i = i + 1;
        }
        assert(self@.1.take(n as int) =~= base@.1);
        let mut parts: Vec<String> = Vec::new();
        let mut k: usize = n;
        while k < self.parts.len()
            invariant
                n <= k <= self.parts.len(),
                parts.len() == k - n,
                forall|j: int| 0 <= j < k - n ==> parts@[j]@ == self.parts@[j + n]@,
            decreases self.parts.len() - k,
        {
            parts.push(self.parts[k].clone());
            k = k + 1;
        }
        let r = ScriptPath { rooted: false, parts };
        assert(r@.1 =~= self@.1.skip(n as int));
        r
    }

    /// A copy of this path.
    pub fn copied(&self) -> (r: ScriptPath)
        ensures
            r@ == self@,
    {
        let mut parts: Vec<String> = Vec::new();
        let mut i: usize = 0;
        while i < self.parts.len()
            invariant
                i <= self.parts.len(),
                parts.len() == i,
                forall|j: int| 0 <= j < i ==> parts@[j]@ == self.parts@[j]@,
            decreases self.parts.len() - i,
        {
            parts.push(self.parts[i].clone());
            i = i + 1;
        }
        let r = ScriptPath { rooted: self.rooted, parts };
        assert(r@.1 =~= self@.1);
        r
    }

    /// Whether two paths are the same path.
    pub fn same_as(&self, other: &ScriptPath) -> (r: bool)
        ensures
            r == (self@ == other@),
    {
        if self.rooted != other.rooted || self.parts.len() != other.parts.len() {
            assert(self@.1.len() == self.parts@.len() && other@.1.len() == other.parts@.len());
            return false;
        }
        let mut i: usize = 0;
        while i < self.parts.len()
            invariant
                i <= self.parts.len(),
                self.parts.len() == other.parts.len(),
                forall|j: int| 0 <= j < i ==> self.parts@[j]@ == other.parts@[j]@,
            decreases self.parts.len() - i,
        {
            if self.parts[i] != other.parts[i] {
                assert(self@.1[i as int] != other@.1[i as int]);
                return false;
            }
            i = i + 1;
        }
        assert(self@.1 =~= other@.1);
        true
    }

    /// This path with one more part, `name`, at its end.
    pub fn join(&self, name: &str) -> (r: ScriptPath)
        ensures
            r@ == path_join(self@, name@),
    {
        let mut r = self.copied();
        r.parts.push(String::from_str(name));
        assert(r@.1 =~= self@.1.push(name@));
        r
    }

    /// This path with the extension of its file name replaced by `ext`, as
    /// `Path::with_extension` does; a path without parts is returned as it is.
    pub fn with_extension(&self, ext: &str) -> (r: ScriptPath)
        ensures
            r@ == path_with_extension(self@, ext@),
    {
        let mut r = self.copied();
        let n = r.parts.len();
        if n == 0 {
            return r;
        }
        let name = r.parts[n - 1].as_str();
        let k = find_stem_end(name);
        let stem = name.substring_char(0, k);
        let renamed = dotted(stem, ext);
        proof {
            assert(stem@ =~= self@.1.last().take(k as int));
        }
        r.parts.pop();
        r.parts.push(renamed);
        assert(r@.1 =~= self@.1.drop_last().push(with_extension_name(self@.1.last(), ext@)));
        r
    }

    /// This path with `.ext` added to its file name, after any extension it
    /// already has; a path without parts is returned as it is.
    pub fn append_extension(&self, ext: &str) -> (r: ScriptPath)
        ensures
            r@ == path_append_extension(self@, ext@),
    {
        let mut r = self.copied();
        let n = r.parts.len();
        if n == 0 {
            return r;
        }
        let renamed = dotted(r.parts[n - 1].as_str(), ext);
        r.parts.pop();
        r.parts.push(renamed);
        assert(r@.1 =~= self@.1.drop_last().push(appended_extension_name(self@.1.last(), ext@)));
        r
    }
}

} // verus!
