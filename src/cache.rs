//! The require cache: for each resolved path, nothing yet, a load in flight
//! with the tasks waiting on it, or the outcome of the one load that ran.
use vstd::prelude::*;
use crate::assoc::{find_last, index_of_last, lemma_find_last_update, lemma_find_last_valid};
use crate::path::ScriptPath;

verus! {

/// A cache entry as stored.
#[derive(Debug)]
pub enum CacheEntry<T> {
    /// A load is in flight; these tasks wait for it, in the order they came.
    Pending(Vec<u64>),
    /// The load finished with this outcome, which every later request gets.
    Ready(T),
}

/// A cache entry as the contracts see it.
pub enum CacheState<T> {
    Pending(Seq<u64>),
    Ready(T),
}

impl<T> View for CacheEntry<T> {
    type V = CacheState<T>;

    open spec fn view(&self) -> CacheState<T> {
        match self {
            CacheEntry::Pending(w) => CacheState::Pending(w@),
            CacheEntry::Ready(o) => CacheState::Ready(*o),
        }
    }
}

/// What a request for a path finds in the cache.
#[derive(Debug, Clone, Copy, PartialEq, Eq)]
pub enum CacheReply {
    /// The outcome is there: read it with `get_from_cache`.
    Cached,
    /// A load is in flight: the task has been added to its waiters.
    Wait,
    /// Nothing was there: the path is now pending and the caller loads it.
    Load,
}

pub type PathView = (bool, Seq<Seq<char>>);

/// The cache after a request for `p` by task `w`, and the reply.
pub open spec fn request_effect<T>(c: Map<PathView, CacheState<T>>, p: PathView, w: u64) -> (Map<
    PathView,
    CacheState<T>,
>, CacheReply) {
    if !c.contains_key(p) {
        (c.insert(p, CacheState::Pending(Seq::empty())), CacheReply::Load)
    } else {
        match c[p] {
            CacheState::Pending(ws) => (c.insert(p, CacheState::Pending(ws.push(w))), CacheReply::Wait),
            CacheState::Ready(_) => (c, CacheReply::Cached),
        }
    }
}

/// The cache after the load of `p` finished with `o`; only a pending path
/// changes.
pub open spec fn finish_effect<T>(c: Map<PathView, CacheState<T>>, p: PathView, o: T) -> Map<
    PathView,
    CacheState<T>,
> {
    if c.contains_key(p) && c[p] is Pending {
        c.insert(p, CacheState::Ready(o))
    } else {
        c
    }
}

pub open spec fn entries_map<T>(s: Seq<(ScriptPath, CacheEntry<T>)>) -> Map<PathView, CacheState<T>> {
    Map::new(|p: PathView| find_last(s, p) is Some, |p: PathView| s[find_last(s, p)->0].1@)
}

proof fn lemma_entries_update<T>(s: Seq<(ScriptPath, CacheEntry<T>)>, i: int, e: (ScriptPath, CacheEntry<T>))
    requires
        0 <= i < s.len(),
        e.0@ == s[i].0@,
        find_last(s, e.0@) == Some(i),
    ensures
        entries_map(s.update(i, e)) =~= entries_map(s).insert(e.0@, e.1@),
{
    let t = s.update(i, e);
    assert forall|p: PathView| #[trigger] find_last(t, p) == find_last(s, p) by {
        lemma_find_last_update(s, i, e, p);
        lemma_find_last_valid(s, p);
    }
    assert forall|p: PathView| #[trigger] find_last(s, p) is Some && p != e.0@ implies t[
        find_last(s, p)->0] == s[find_last(s, p)->0] by {
        lemma_find_last_valid(s, p);
    }
    assert(t[i] == e);
}

proof fn lemma_entries_push<T>(s: Seq<(ScriptPath, CacheEntry<T>)>, e: (ScriptPath, CacheEntry<T>))
    ensures
        entries_map(s.push(e)) =~= entries_map(s).insert(e.0@, e.1@),
{
    let t = s.push(e);
    assert(t.drop_last() =~= s);
    assert forall|p: PathView| #[trigger] find_last(s, p) is Some implies t[find_last(s, p)->0]
        == s[find_last(s, p)->0] by {
        lemma_find_last_valid(s, p);
    }
}

/// The cache of required modules, keyed by resolved absolute path.
pub struct RequireCache<T> {
    entries: Vec<(ScriptPath, CacheEntry<T>)>,
}

impl<T> View for RequireCache<T> {
    type V = Map<PathView, CacheState<T>>;

    closed spec fn view(&self) -> Map<PathView, CacheState<T>> {
        entries_map(self.entries@)
    }
}

impl<T> RequireCache<T> {
    /// An empty cache: every path is absent.
    pub fn new() -> (r: Self)
        ensures
            r@ == Map::<PathView, CacheState<T>>::empty(),
    {
        let r = RequireCache { entries: Vec::new() };
        assert(entries_map(r.entries@) =~= Map::empty());
        r
    }

    /// Whether the load of `p` has finished.
    pub fn is_cached(&self, p: &ScriptPath) -> (r: bool)
        ensures
            r == (self@.contains_key(p@) && self@[p@] is Ready),
    {
        match index_of_last(&self.entries, p) {
            Some(i) => match &self.entries[i].1 {
                CacheEntry::Ready(_) => true,
                CacheEntry::Pending(_) => false,
            },
            None => false,
        }
    }

    /// Whether a load of `p` is in flight.
    pub fn is_pending(&self, p: &ScriptPath) -> (r: bool)
        ensures
            r == (self@.contains_key(p@) && self@[p@] is Pending),
    {
        match index_of_last(&self.entries, p) {
            Some(i) => match &self.entries[i].1 {
                CacheEntry::Ready(_) => false,
                CacheEntry::Pending(_) => true,
            },
            None => false,
        }
    }

    /// The outcome of the finished load of `p`.
    pub fn get_from_cache(&self, p: &ScriptPath) -> (r: Option<&T>)
        ensures
            match r {
                Some(o) => self@.contains_key(p@) && self@[p@] == CacheState::Ready(*o),
                None => !(self@.contains_key(p@) && self@[p@] is Ready),
            },
    {
        match index_of_last(&self.entries, p) {
            Some(i) => match &self.entries[i].1 {
                CacheEntry::Ready(o) => Some(o),
                CacheEntry::Pending(_) => None,
            },
            None => None,
        }
    }

    /// A request for `p` by task `waiter`: a path never seen becomes
    /// pending and the reply says to load it; a pending path gains the
    /// waiter; a finished path is left as it is.
    pub fn request(&mut self, p: &ScriptPath, waiter: u64) -> (r: CacheReply)
        ensures
            (final(self)@, r) == request_effect(old(self)@, p@, waiter),
    {
        match index_of_last(&self.entries, p) {
            None => {
                let e = (p.copied(), CacheEntry::Pending(Vec::new()));
                self.entries.push(e);
                proof {
                    lemma_entries_push(old(self).entries@, e);
                    assert(e.1@ == CacheState::<T>::Pending(Seq::empty()));
                }
                CacheReply::Load
            },
            Some(i) => {
                let (key, entry) = self.entries.remove(i);
                match entry {
                    CacheEntry::Ready(o) => {
                        let e = (key, CacheEntry::Ready(o));
                        self.entries.insert(i, e);
                        proof {
                            assert(self.entries@ =~= old(self).entries@);
                        }
                        CacheReply::Cached
                    },
                    CacheEntry::Pending(ws) => {
                        let ghost old_ws = ws@;
                        let mut ws = ws;
                        ws.push(waiter);
                        let e = (key, CacheEntry::Pending(ws));
                        self.entries.insert(i, e);
                        proof {
                            let s = old(self).entries@;
                            assert(self.entries@ =~= s.update(i as int, e));
                            lemma_find_last_valid(s, p@);
                            lemma_entries_update(s, i as int, e);
                            assert(e.1@ == CacheState::<T>::Pending(old_ws.push(waiter)));
                        }
                        CacheReply::Wait
                    },
                }
            },
        }
    }

    /// Records the outcome of the load of the pending path `p` and returns
    /// the tasks that waited for it, in the order they came.
    pub fn finish_load(&mut self, p: &ScriptPath, outcome: T) -> (r: Vec<u64>)
        requires
            old(self)@.contains_key(p@),
            old(self)@[p@] is Pending,
        ensures
            final(self)@ == finish_effect(old(self)@, p@, outcome),
            CacheState::<T>::Pending(r@) == old(self)@[p@],
    {
        let i = match index_of_last(&self.entries, p) {
            Some(i) => i,
            None => {
                return Vec::new();
            },
        };
        let (key, entry) = self.entries.remove(i);
        let e = (key, CacheEntry::Ready(outcome));
        self.entries.insert(i, e);
        proof {
            let s = old(self).entries@;
            assert(self.entries@ =~= s.update(i as int, e));
            lemma_find_last_valid(s, p@);
            lemma_entries_update(s, i as int, e);
        }
        match entry {
            CacheEntry::Pending(ws) => ws,
            CacheEntry::Ready(_) => Vec::new(),
        }
    }
}


/// One thing that happens to the cache: a request by a task, or the end of
/// a load with its outcome.
pub enum CacheEvent<T> {
    Request(PathView, u64),
    Finish(PathView, T),
}

pub open spec fn apply_event<T>(c: Map<PathView, CacheState<T>>, e: CacheEvent<T>) -> Map<
    PathView,
    CacheState<T>,
> {
    match e {
        CacheEvent::Request(p, w) => request_effect(c, p, w).0,
        CacheEvent::Finish(p, o) => finish_effect(c, p, o),
    }
}

/// The cache after a sequence of events, in order.
pub open spec fn run_events<T>(c: Map<PathView, CacheState<T>>, evs: Seq<CacheEvent<T>>) -> Map<
    PathView,
    CacheState<T>,
>
    decreases evs.len(),
{
    if evs.len() == 0 {
        c
    } else {
        apply_event(run_events(c, evs.drop_last()), evs.last())
    }
}

/// How many requests in `evs` for `p` were told to load it.
pub open spec fn loads_of<T>(c: Map<PathView, CacheState<T>>, evs: Seq<CacheEvent<T>>, p: PathView) -> nat
    decreases evs.len(),
{
    if evs.len() == 0 {
        0
    } else {
        let before = run_events(c, evs.drop_last());
        let this: nat = match evs.last() {
            CacheEvent::Request(q, w) => if q == p && request_effect(before, q, w).1
                == CacheReply::Load {
                1
            } else {
                0
            },
            CacheEvent::Finish(_, _) => 0,
        };
        loads_of(c, evs.drop_last(), p) + this
    }
}

/// The tasks that request `p` in `evs`, in order.
pub open spec fn requesters<T>(evs: Seq<CacheEvent<T>>, p: PathView) -> Seq<u64>
    decreases evs.len(),
{
    if evs.len() == 0 {
        Seq::empty()
    } else {
        let before = requesters(evs.drop_last(), p);
        match evs.last() {
            CacheEvent::Request(q, w) => if q == p {
                before.push(w)
            } else {
                before
            },
            CacheEvent::Finish(_, _) => before,
        }
    }
}

/// One load per path: whatever the requests and completions, at most one
/// request for `p` is told to load it, none when `p` was already in the
/// cache, and exactly one when `p` was not and some task asked for it. A
/// path, once in the cache, stays there.
pub proof fn lemma_load_at_most_once<T>(
    c: Map<PathView, CacheState<T>>,
    evs: Seq<CacheEvent<T>>,
    p: PathView,
)
    ensures
        loads_of(c, evs, p) <= 1,
        c.contains_key(p) ==> loads_of(c, evs, p) == 0,
        !c.contains_key(p) ==> (run_events(c, evs).contains_key(p) <==> loads_of(c, evs, p)
            == 1),
        c.contains_key(p) ==> run_events(c, evs).contains_key(p),
        requesters(evs, p).len() > 0 ==> run_events(c, evs).contains_key(p),
        !c.contains_key(p) && requesters(evs, p).len() > 0 ==> loads_of(c, evs, p) == 1,
    decreases evs.len(),
{
    if evs.len() > 0 {
        lemma_load_at_most_once(c, evs.drop_last(), p);
    }
}

/// A finished load is final: once `p` holds the outcome `o`, every later
/// sequence of events leaves it there, and every later request for `p` is
/// answered from the cache with that same outcome.
pub proof fn lemma_outcome_is_final<T>(
    c: Map<PathView, CacheState<T>>,
    evs: Seq<CacheEvent<T>>,
    p: PathView,
    o: T,
    w: u64,
)
    requires
        c.contains_key(p),
        c[p] == CacheState::Ready(o),
    ensures
        run_events(c, evs).contains_key(p),
        run_events(c, evs)[p] == CacheState::Ready(o),
        request_effect(run_events(c, evs), p, w) == (run_events(c, evs), CacheReply::Cached),
    decreases evs.len(),
{
    if evs.len() > 0 {
        lemma_outcome_is_final(c, evs.drop_last(), p, o, w);
    }
}

/// While a load of `p` is in flight, every task that requests `p` joins its
/// waiters, in order; `finish_load` then hands all of them back at once, so
/// all of them read the one outcome that the load produced.
pub proof fn lemma_waiters_accumulate<T>(
    c: Map<PathView, CacheState<T>>,
    evs: Seq<CacheEvent<T>>,
    p: PathView,
    ws: Seq<u64>,
)
    requires
        c.contains_key(p),
        c[p] == CacheState::<T>::Pending(ws),
        forall|k: int| 0 <= k < evs.len() ==> !(#[trigger] evs[k] is Finish && evs[k]->Finish_0 == p),
    ensures
        run_events(c, evs).contains_key(p),
        run_events(c, evs)[p] == CacheState::<T>::Pending(ws + requesters(evs, p)),
    decreases evs.len(),
{
    if evs.len() > 0 {
        let prev = evs.drop_last();
        assert forall|k: int| 0 <= k < prev.len() implies !(#[trigger] prev[k] is Finish
            && prev[k]->Finish_0 == p) by {
            assert(prev[k] == evs[k]);
        }
        lemma_waiters_accumulate(c, prev, p, ws);
        assert(evs.last() == evs[evs.len() - 1]);
        assert(ws + requesters(prev, p).push(evs.last()->Request_1) =~= (ws + requesters(
            prev,
            p,
        )).push(evs.last()->Request_1));
    } else {
        assert(ws + Seq::<u64>::empty() =~= ws);
    }
}


/// All requests for `p` made while its load is in flight share that one
/// load and its outcome: the first request for an absent `p` is told to
/// load it; every later request, up to the end of the load, is told to
/// wait, starts no load, and is kept in order among the waiters; the end of
/// the load hands all of them back (`finish_load` returns the waiters) and
/// leaves `p` holding the outcome `o`, which every later request reads.
pub proof fn lemma_one_load_serves_all<T>(
    c: Map<PathView, CacheState<T>>,
    p: PathView,
    first: u64,
    evs: Seq<CacheEvent<T>>,
    o: T,
)
    requires
        !c.contains_key(p),
        forall|k: int| 0 <= k < evs.len() ==> !(#[trigger] evs[k] is Finish && evs[k]->Finish_0 == p),
    ensures
        request_effect(c, p, first).1 == CacheReply::Load,
        loads_of(request_effect(c, p, first).0, evs, p) == 0,
        run_events(request_effect(c, p, first).0, evs).contains_key(p),
        run_events(request_effect(c, p, first).0, evs)[p] == CacheState::<T>::Pending(
            requesters(evs, p),
        ),
        finish_effect(run_events(request_effect(c, p, first).0, evs), p, o)[p] == CacheState::Ready(
            o,
        ),
{
    let c1 = request_effect(c, p, first).0;
    lemma_load_at_most_once(c1, evs, p);
    lemma_waiters_accumulate(c1, evs, p, Seq::empty());
    assert(Seq::<u64>::empty() + requesters(evs, p) =~= requesters(evs, p));
}

} // verus!
