//! The loader core: the deduplicated refresh queue, the memory cache with
//! TTL-based staleness, and the decision logic that resolves a list
//! document into an assembled view with a cache, store and source fallback
//! chain. All I/O is the caller's: these types decide, the caller fetches.

use vstd::prelude::*;
use crate::source::{
    lemma_missing_links_characterization, spec_missing_links, FullReadmeRepo, FullReadmeRepoV,
    FullRepoLink, FullRepoLinkV, IdentV, LinkV, ReadmeRepo, ReadmeRepoV, RepoDetails,
    RepoDetailsItem, RepoIdent, RepoLink,
};

verus! {

/// Mathematical value of a `Task`.
#[verifier::ext_equal]
pub ghost enum TaskV {
    LoadRepoDetails(IdentV),
    LoadReadmeRepo(IdentV),
}

/// One unit of background refresh work: re-fetch a repository's metadata,
/// or re-fetch a whole list document. Two tasks naming the same repository
/// and kind are the same task.
#[derive(Debug)]
pub enum Task {
    LoadRepoDetails(RepoIdent),
    LoadReadmeRepo(RepoIdent),
}

impl View for Task {
    type V = TaskV;

    open spec fn view(&self) -> TaskV {
        match self {
            Task::LoadRepoDetails(id) => TaskV::LoadRepoDetails(id@),
            Task::LoadReadmeRepo(id) => TaskV::LoadReadmeRepo(id@),
        }
    }
}

impl DeepView for Task {
    type V = TaskV;

    open spec fn deep_view(&self) -> TaskV {
        self.view()
    }
}

impl Clone for Task {
    fn clone(&self) -> (r: Self)
        ensures
            r@ == self@,
    {
        match self {
            Task::LoadRepoDetails(id) => Task::LoadRepoDetails(id.clone()),
            Task::LoadReadmeRepo(id) => Task::LoadReadmeRepo(id.clone()),
        }
    }
}

impl PartialEq for Task {
    fn eq(&self, other: &Self) -> (r: bool) {
        match (self, other) {
            (Task::LoadRepoDetails(a), Task::LoadRepoDetails(b)) => a == b,
            (Task::LoadReadmeRepo(a), Task::LoadReadmeRepo(b)) => a == b,
            _ => false,
        }
    }
}

impl vstd::std_specs::cmp::PartialEqSpecImpl for Task {
    open spec fn obeys_eq_spec() -> bool {
        true
    }

    open spec fn eq_spec(&self, other: &Self) -> bool {
        self@ == other@
    }
}

/// No two pending tasks are equal.
pub open spec fn tasks_distinct(q: Seq<TaskV>) -> bool {
    forall|i: int, j: int| 0 <= i < j < q.len() ==> q[i] != q[j]
}

/// What enqueueing does: nothing if an equal task is pending, else append.
pub open spec fn spec_push_task(q: Seq<TaskV>, t: TaskV) -> Seq<TaskV> {
    if q.contains(t) {
        q
    } else {
        q.push(t)
    }
}

/// Enqueueing a batch, in order.
pub open spec fn spec_push_many(q: Seq<TaskV>, ts: Seq<TaskV>) -> Seq<TaskV>
    decreases ts.len(),
{
    if ts.len() == 0 {
        q
    } else {
        spec_push_many(spec_push_task(q, ts[0]), ts.drop_first())
    }
}

/// Enqueueing preserves distinctness and adds exactly the new task to the
/// members.
pub proof fn lemma_push_task_props(q: Seq<TaskV>, t: TaskV)
    requires
        tasks_distinct(q),
    ensures
        tasks_distinct(spec_push_task(q, t)),
        forall|x: TaskV| spec_push_task(q, t).contains(x) == (q.contains(x) || x == t),
        spec_push_task(q, t).contains(t),
{
    let r = spec_push_task(q, t);
    if !q.contains(t) {
        assert forall|i: int, j: int| 0 <= i < j < r.len() implies r[i] != r[j] by {
            if j == r.len() - 1 {
                assert(r[i] == q[i]);
                assert(q.contains(q[i]));
            }
        }
        assert forall|x: TaskV| r.contains(x) implies (q.contains(x) || x == t) by {
            let i = choose|i: int| 0 <= i < r.len() && r[i] == x;
            if i < q.len() {
                assert(q[i] == x);
            }
        }
        assert forall|x: TaskV| (q.contains(x) || x == t) implies r.contains(x) by {
            if x == t {
                assert(r[q.len() as int] == t);
            } else {
                let i = choose|i: int| 0 <= i < q.len() && q[i] == x;
                assert(r[i] == x);
            }
        }
    }
    assert(r.contains(t)) by {
        if q.contains(t) {
        } else {
            assert(r[q.len() as int] == t);
        }
    }
}

/// How often a task is pending.
pub open spec fn task_count(q: Seq<TaskV>, t: TaskV) -> nat
    decreases q.len(),
{
    if q.len() == 0 {
        0
    } else {
        (if q[0] == t {
            1nat
        } else {
            0nat
        }) + task_count(q.drop_first(), t)
    }
}

/// In a distinct queue, a task is pending at most once.
pub proof fn lemma_task_count_distinct(q: Seq<TaskV>, t: TaskV)
    requires
        tasks_distinct(q),
    ensures
        task_count(q, t) == if q.contains(t) {
            1nat
        } else {
            0nat
        },
    decreases q.len(),
{
    if q.len() > 0 {
        let rest = q.drop_first();
        assert(tasks_distinct(rest)) by {
            assert forall|i: int, j: int| 0 <= i < j < rest.len() implies rest[i] != rest[j] by {
                assert(rest[i] == q[i + 1] && rest[j] == q[j + 1]);
            }
        }
        lemma_task_count_distinct(rest, t);
        if q[0] == t {
            if rest.contains(t) {
                let i = choose|i: int| 0 <= i < rest.len() && rest[i] == t;
                assert(q[i + 1] == rest[i]);
                assert(q[0] == q[i + 1]);
                assert(false);
            }
            assert(q.contains(t)) by {
                assert(q[0] == t);
            }
        } else {
            if q.contains(t) {
                let i = choose|i: int| 0 <= i < q.len() && q[i] == t;
                assert(rest[i - 1] == t);
                assert(rest.contains(t));
            }
            if rest.contains(t) {
                let i = choose|i: int| 0 <= i < rest.len() && rest[i] == t;
                assert(q[i + 1] == t);
            }
        }
    }
}

/// Law: enqueueing is idempotent. Enqueueing the same task twice into any
/// deduplicated queue leaves exactly one pending instance of it.
pub proof fn lemma_enqueue_idempotent(q: Seq<TaskV>, t: TaskV)
    requires
        tasks_distinct(q),
    ensures
        task_count(spec_push_task(spec_push_task(q, t), t), t) == 1,
        spec_push_task(spec_push_task(q, t), t) == spec_push_task(q, t),
{
    lemma_push_task_props(q, t);
    let q1 = spec_push_task(q, t);
    lemma_push_task_props(q1, t);
    assert(q1.contains(t));
    lemma_task_count_distinct(q1, t);
}

/// Law: enqueueing a batch keeps the queue deduplicated, and each task of
/// the batch is pending exactly once afterwards.
pub proof fn lemma_push_many_dedups(q: Seq<TaskV>, ts: Seq<TaskV>)
    requires
        tasks_distinct(q),
    ensures
        tasks_distinct(spec_push_many(q, ts)),
        forall|x: TaskV|
            spec_push_many(q, ts).contains(x) == (q.contains(x) || ts.contains(x)),
        forall|x: TaskV|
            ts.contains(x) ==> task_count(spec_push_many(q, ts), x) == 1,
    decreases ts.len(),
{
    if ts.len() == 0 {
        assert forall|x: TaskV| !ts.contains(x) by {
            if ts.contains(x) {
                let i = choose|i: int| 0 <= i < ts.len() && ts[i] == x;
            }
        }
    } else {
        lemma_push_task_props(q, ts[0]);
        let q1 = spec_push_task(q, ts[0]);
        lemma_push_many_dedups(q1, ts.drop_first());
        let r = spec_push_many(q, ts);
        assert forall|x: TaskV| r.contains(x) == (q.contains(x) || ts.contains(x)) by {
            if ts.contains(x) {
                let i = choose|i: int| 0 <= i < ts.len() && ts[i] == x;
                if i > 0 {
                    assert(ts.drop_first()[i - 1] == x);
                    assert(ts.drop_first().contains(x));
                }
            }
            if ts.drop_first().contains(x) {
                let i = choose|i: int| 0 <= i < ts.drop_first().len() && ts.drop_first()[i] == x;
                assert(ts[i + 1] == x);
                assert(ts.contains(x));
            }
            if x == ts[0] {
                assert(ts.contains(x)) by {
                    assert(ts[0] == x);
                }
            }
        }
        assert forall|x: TaskV| ts.contains(x) implies task_count(r, x) == 1 by {
            assert(r.contains(x));
            lemma_task_count_distinct(r, x);
        }
    }
}

/// The deduplicated, order-preserving queue of pending refresh work. The
/// caller owns synchronization; this is the sequential core.
#[derive(Debug)]
pub struct TaskQueue {
    tasks: Vec<Task>,
}

impl View for TaskQueue {
    type V = Seq<TaskV>;

    closed spec fn view(&self) -> Seq<TaskV> {
        self.tasks.deep_view()
    }
}

impl TaskQueue {
    /// An empty queue.
    pub fn new() -> (r: Self)
        ensures
            r@ == Seq::<TaskV>::empty(),
            tasks_distinct(r@),
    {
        let r = TaskQueue { tasks: Vec::new() };
        proof {
            assert(r@ =~= Seq::<TaskV>::empty());
        }
        r
    }

    /// Is an equal task already pending?
    fn contains(&self, task: &Task) -> (r: bool)
        ensures
            r == self@.contains(task@),
    {
        let mut i: usize = 0;
        while i < self.tasks.len()
            invariant
                0 <= i <= self.tasks.len(),
                forall|k: int| 0 <= k < i ==> self@[k] != task@,
            decreases self.tasks.len() - i,
        {
            if self.tasks[i] == *task {
                proof {
                    assert(self@[i as int] == task@);
                }
                return true;
            }
            i = i + 1;
        }
        false
    }

    /// Enqueues a task, unless an equal task is already pending.
    pub fn push(&mut self, task: Task)
        requires
            tasks_distinct(old(self)@),
        ensures
            final(self)@ == spec_push_task(old(self)@, task@),
            tasks_distinct(final(self)@),
    {
        proof {
            lemma_push_task_props(self@, task@);
        }
        if !self.contains(&task) {
            let ghost q0 = self@;
            self.tasks.push(task);
            proof {
                assert(self@ =~= q0.push(task@));
            }
        }
    }

    /// Enqueues every task of a batch, deduplicating each against the
    /// queue, in order.
    pub fn push_many(&mut self, tasks: Vec<Task>)
        requires
            tasks_distinct(old(self)@),
        ensures
            final(self)@ == spec_push_many(old(self)@, tasks.deep_view()),
            tasks_distinct(final(self)@),
    {
        let ghost ts = tasks.deep_view();
        let n = tasks.len();
        let mut tasks = tasks;
        let mut i: usize = 0;
        proof {
            assert(ts.skip(0) =~= ts);
        }
        while i < n
            invariant
                0 <= i <= n,
                n == tasks.len(),
                ts == tasks.deep_view(),
                tasks_distinct(self@),
                spec_push_many(old(self)@, ts) == spec_push_many(self@, ts.skip(i as int)),
            decreases n - i,
        {
            let t = tasks[i].clone();
            proof {
                assert(t@ == ts[i as int]);
                assert(ts.skip(i as int)[0] == ts[i as int]);
                assert(ts.skip(i as int).drop_first() =~= ts.skip(i as int + 1));
            }
            self.push(t);
            i = i + 1;
        }
        proof {
            assert(ts.skip(n as int) =~= Seq::<TaskV>::empty());
        }
    }

    /// Takes the oldest pending task, if any.
    pub fn pop(&mut self) -> (r: Option<Task>)
        requires
            tasks_distinct(old(self)@),
        ensures
            tasks_distinct(final(self)@),
            match r {
                Some(t) => old(self)@.len() > 0 && t@ == old(self)@[0] && final(self)@ == old(
                    self,
                )@.drop_first(),
                None => old(self)@.len() == 0 && final(self)@ == old(self)@,
            },
    {
        if self.tasks.len() == 0 {
            return None;
        }
        let ghost q0 = self@;
        let t = self.tasks.remove(0);
        proof {
            assert(t@ == q0[0]);
            assert(self@ =~= q0.drop_first());
            assert forall|i: int, j: int|
                0 <= i < j < self@.len() implies self@[i] != self@[j] by {
                assert(self@[i] == q0[i + 1] && self@[j] == q0[j + 1]);
            }
        }
        Some(t)
    }

    /// How many tasks are pending.
    pub fn len(&self) -> (r: usize)
        ensures
            r == self@.len(),
    {
        self.tasks.len()
    }
}

/// Mathematical value of a `CacheEntry`.
#[verifier::ext_equal]
pub ghost struct CacheEntryV {
    pub data: FullReadmeRepoV,
    pub inserted_at: i64,
}

/// An assembled view together with the time it entered the cache.
#[derive(Debug)]
pub struct CacheEntry {
    pub data: FullReadmeRepo,
    pub inserted_at: i64,
}

impl View for CacheEntry {
    type V = CacheEntryV;

    open spec fn view(&self) -> CacheEntryV {
        CacheEntryV { data: self.data@, inserted_at: self.inserted_at }
    }
}

impl DeepView for CacheEntry {
    type V = CacheEntryV;

    open spec fn deep_view(&self) -> CacheEntryV {
        self.view()
    }
}

impl Clone for CacheEntry {
    fn clone(&self) -> (r: Self)
        ensures
            r@ == self@,
    {
        CacheEntry { data: self.data.clone(), inserted_at: self.inserted_at }
    }
}

/// Is a cache entry still fresh at `now`, for the given time-to-live?
/// An entry from the future counts as fresh.
pub open spec fn spec_entry_fresh(e: CacheEntryV, now: i64, ttl_secs: u64) -> bool {
    now - e.inserted_at < ttl_secs
}

/// Executable freshness test.
pub fn entry_is_fresh(e: &CacheEntry, now: i64, ttl_secs: u64) -> (r: bool)
    ensures
        r == spec_entry_fresh(e@, now, ttl_secs),
{
    (now as i128) - (e.inserted_at as i128) < (ttl_secs as i128)
}

/// Must the aggregate view be rebuilt? Yes when the cache has no entry, and
/// when the entry it has is at least the time-to-live old: such an entry is
/// treated as absent. A younger entry is served as it is.
pub open spec fn spec_needs_rebuild(hit: Option<CacheEntryV>, now: i64, ttl_secs: u64) -> bool {
    match hit {
        None => true,
        Some(e) => !spec_entry_fresh(e, now, ttl_secs),
    }
}

/// Executable rebuild decision.
pub fn needs_rebuild(hit: &Option<CacheEntry>, now: i64, ttl_secs: u64) -> (r: bool)
    ensures
        r == spec_needs_rebuild(hit.deep_view(), now, ttl_secs),
{
    match hit {
        None => true,
        Some(e) => !entry_is_fresh(e, now, ttl_secs),
    }
}

/// First entry with the given key, if any.
pub open spec fn spec_cache_lookup(
    s: Seq<(IdentV, CacheEntryV)>,
    id: IdentV,
) -> Option<CacheEntryV>
    decreases s.len(),
{
    if s.len() == 0 {
        None
    } else if s[0].0 == id {
        Some(s[0].1)
    } else {
        spec_cache_lookup(s.drop_first(), id)
    }
}

/// Each key appears at most once.
pub open spec fn cache_keys_unique(s: Seq<(IdentV, CacheEntryV)>) -> bool {
    forall|i: int, j: int| 0 <= i < j < s.len() ==> s[i].0 != s[j].0
}

/// Appending a fresh key changes only that key's lookup.
proof fn lemma_lookup_push(s: Seq<(IdentV, CacheEntryV)>, id: IdentV, e: CacheEntryV, other: IdentV)
    ensures
        spec_cache_lookup(s.push((id, e)), other) == if spec_cache_lookup(s, other) is Some {
            spec_cache_lookup(s, other)
        } else if other == id {
            Some(e)
        } else {
            None
        },
    decreases s.len(),
{
    let t = s.push((id, e));
    if s.len() == 0 {
        assert(t[0] == (id, e));
        assert(t.len() == 1);
        if other != id {
            assert(t[0].0 != other);
            assert(t.drop_first() =~= Seq::<(IdentV, CacheEntryV)>::empty());
        }
    } else {
        assert(t[0] == s[0]);
        if s[0].0 != other {
            assert(t.drop_first() =~= s.drop_first().push((id, e)));
            lemma_lookup_push(s.drop_first(), id, e, other);
        }
    }
}

/// Removing the entry at `k` removes its key's lookup and keeps the others,
/// provided keys are unique.
proof fn lemma_lookup_remove(s: Seq<(IdentV, CacheEntryV)>, k: int, other: IdentV)
    requires
        cache_keys_unique(s),
        0 <= k < s.len(),
    ensures
        spec_cache_lookup(s.remove(k), other) == if other == s[k].0 {
            None::<CacheEntryV>
        } else {
            spec_cache_lookup(s, other)
        },
    decreases s.len(),
{
    let t = s.remove(k);
    if k == 0 {
        assert(t =~= s.drop_first());
        if other == s[0].0 {
            lemma_lookup_not_found(s.drop_first(), other);
        }
    } else {
        assert(t[0] == s[0]);
        assert(t.drop_first() =~= s.drop_first().remove(k - 1));
        assert(cache_keys_unique(s.drop_first())) by {
            assert forall|i: int, j: int|
                0 <= i < j < s.drop_first().len() implies s.drop_first()[i].0
                != s.drop_first()[j].0 by {
                assert(s.drop_first()[i] == s[i + 1] && s.drop_first()[j] == s[j + 1]);
            }
        }
        lemma_lookup_remove(s.drop_first(), k - 1, other);
        assert(s.drop_first()[k - 1] == s[k]);
        if other == s[k].0 {
            assert(s[0].0 != other);
        }
    }
}

/// A key that no entry carries looks up to nothing.
proof fn lemma_lookup_not_found(s: Seq<(IdentV, CacheEntryV)>, id: IdentV)
    requires
        forall|i: int| 0 <= i < s.len() ==> s[i].0 != id,
    ensures
        spec_cache_lookup(s, id) is None,
    decreases s.len(),
{
    if s.len() > 0 {
        lemma_lookup_not_found(s.drop_first(), id);
    }
}

/// The memory cache of assembled views, keyed by document identifier. The
/// caller owns synchronization; this is the sequential core. The cache
/// never evicts: stale entries are overwritten by the next rebuild.
#[derive(Debug)]
pub struct Cache {
    readme_repos: Vec<(RepoIdent, CacheEntry)>,
}

impl View for Cache {
    type V = Seq<(IdentV, CacheEntryV)>;

    closed spec fn view(&self) -> Seq<(IdentV, CacheEntryV)> {
        self.readme_repos.deep_view()
    }
}

impl Cache {
    /// An empty cache.
    pub fn new() -> (r: Self)
        ensures
            r@ == Seq::<(IdentV, CacheEntryV)>::empty(),
            cache_keys_unique(r@),
    {
        let r = Cache { readme_repos: Vec::new() };
        proof {
            assert(r@ =~= Seq::<(IdentV, CacheEntryV)>::empty());
        }
        r
    }

    /// The cached entry for a document, cloned out.
    pub fn readme_repo(&self, ident: &RepoIdent) -> (r: Option<CacheEntry>)
        ensures
            r.deep_view() == spec_cache_lookup(self@, ident@),
    {
        let mut i: usize = 0;
        proof {
            assert(self@.skip(0) =~= self@);
        }
        while i < self.readme_repos.len()
            invariant
                0 <= i <= self.readme_repos.len(),
                spec_cache_lookup(self@, ident@) == spec_cache_lookup(
                    self@.skip(i as int),
                    ident@,
                ),
                forall|k: int| 0 <= k < i ==> self@[k].0 != ident@,
            decreases self.readme_repos.len() - i,
        {
            proof {
                assert(self@.skip(i as int)[0] == self@[i as int]);
                assert(self@.skip(i as int).drop_first() =~= self@.skip(i as int + 1));
            }
            if self.readme_repos[i].0 == *ident {
                let e = self.readme_repos[i].1.clone();
                return Some(e);
            }
            i = i + 1;
        }
        proof {
            assert(self@.skip(self.readme_repos.len() as int) =~= Seq::<(
                IdentV,
                CacheEntryV,
            )>::empty());
        }
        None
    }

    /// Stores an assembled view for a document, replacing any entry the
    /// document already has; `now` becomes the entry's insertion time.
    #[verifier::loop_isolation(false)]
    pub fn readme_repo_insert(&mut self, ident: RepoIdent, data: FullReadmeRepo, now: i64)
        requires
            cache_keys_unique(old(self)@),
        ensures
            cache_keys_unique(final(self)@),
            spec_cache_lookup(final(self)@, ident@) == Some(
                CacheEntryV { data: data@, inserted_at: now },
            ),
            forall|other: IdentV|
                other != ident@ ==> spec_cache_lookup(final(self)@, other) == spec_cache_lookup(
                    old(self)@,
                    other,
                ),
    {
        let ghost s0 = self@;
        let mut k: usize = 0;
        let n = self.readme_repos.len();
        let mut found: bool = false;
        while k < n && !found
            invariant
                0 <= k <= n,
                n == self.readme_repos.len(),
                self@ == s0,
                forall|j: int| 0 <= j < k ==> s0[j].0 != ident@,
                found == false,
            decreases n - k,
        {
            if self.readme_repos[k].0 == *(&ident) {
                found = true;
                proof {
                    assert(s0[k as int].0 == ident@);
                }
                break ;
            }
            k = k + 1;
        }
        let ghost s1;
        if found {
            let _old_entry = self.readme_repos.remove(k);
            proof {
                s1 = self@;
                assert(s1 =~= s0.remove(k as int));
                lemma_lookup_remove(s0, k as int, ident@);
                assert forall|other: IdentV|
                    spec_cache_lookup(s1, other) == (if other == s0[k as int].0 {
                        None::<CacheEntryV>
                    } else {
                        spec_cache_lookup(s0, other)
                    }) by {
                    lemma_lookup_remove(s0, k as int, other);
                }
                assert forall|i: int, j: int|
                    0 <= i < j < s1.len() implies s1[i].0 != s1[j].0 by {
                    let pi = if i < k {
                        i
                    } else {
                        i + 1
                    };
                    let pj = if j < k {
                        j
                    } else {
                        j + 1
                    };
                    assert(s1[i] == s0[pi] && s1[j] == s0[pj]);
                }
            }
        } else {
            proof {
                s1 = self@;
                lemma_lookup_not_found(s0, ident@);
            }
        }
        let ghost s1v = s1;
        proof {
            assert(spec_cache_lookup(s1v, ident@) is None);
        }
        let entry = CacheEntry { data, inserted_at: now };
        self.readme_repos.push((ident, entry));
        proof {
            assert(self@ =~= s1v.push((self@[self@.len() - 1].0, self@[self@.len() - 1].1)));
            assert(self@[self@.len() - 1].0 == ident@);
            assert(self@ =~= s1v.push((ident@, CacheEntryV { data: data@, inserted_at: now })));
            lemma_lookup_push(s1v, ident@, CacheEntryV { data: data@, inserted_at: now }, ident@);
            assert forall|other: IdentV|
                other != ident@ implies spec_cache_lookup(self@, other) == spec_cache_lookup(
                s0,
                other,
            ) by {
                lemma_lookup_push(
                    s1v,
                    ident@,
                    CacheEntryV { data: data@, inserted_at: now },
                    other,
                );
                if found {
                    lemma_lookup_remove(s0, k as int, other);
                }
            }
            assert forall|i: int, j: int|
                0 <= i < j < self@.len() implies self@[i].0 != self@[j].0 by {
                if j < self@.len() - 1 {
                    assert(self@[i] == s1v[i] && self@[j] == s1v[j]);
                } else {
                    assert(self@[i] == s1v[i]);
                    if s1v[i].0 == ident@ {
                        assert(s1v.contains(s1v[i]));
                        lemma_lookup_found(s1v, i);
                        assert(false);
                    }
                }
            }
        }
    }
}

/// An entry at index `i` makes its key's lookup a `Some`.
proof fn lemma_lookup_found(s: Seq<(IdentV, CacheEntryV)>, i: int)
    requires
        0 <= i < s.len(),
    ensures
        spec_cache_lookup(s, s[i].0) is Some,
    decreases s.len(),
{
    if s.len() > 0 && s[0].0 != s[i].0 {
        assert(s.drop_first()[i - 1] == s[i]);
        lemma_lookup_found(s.drop_first(), i - 1);
    }
}

/// Mathematical value of a `LinkResolution`.
#[verifier::ext_equal]
pub ghost struct ResolutionV {
    pub self_ident: IdentV,
    pub links: Seq<LinkV>,
    pub allow_source_refresh: bool,
    pub next_index: int,
    pub resolved: Seq<FullRepoLinkV>,
    pub not_found: Seq<IdentV>,
    pub aborted: bool,
}

/// Mathematical value of a `LinkStep`.
pub ghost enum StepV {
    Fetch(IdentV),
    SkipSelf,
    Done,
}

/// What the resolver asks its caller to do next: fetch the metadata of one
/// link target, pass over a link that points at the document itself, or
/// stop.
#[derive(Debug)]
pub enum LinkStep {
    Fetch(RepoIdent),
    SkipSelf,
    Done,
}

impl View for LinkStep {
    type V = StepV;

    open spec fn view(&self) -> StepV {
        match self {
            LinkStep::Fetch(id) => StepV::Fetch(id@),
            LinkStep::SkipSelf => StepV::SkipSelf,
            LinkStep::Done => StepV::Done,
        }
    }
}

/// Mathematical value of a `LinkOutcome`.
pub ghost enum OutcomeV {
    Found(crate::source::DetailsV),
    NotFound,
    Missing,
    Failed,
    RateLimited,
}

/// What the caller's fetch of one link target came to: a metadata snapshot;
/// the source's word that the target does not exist; no stored record (when
/// the source may not be asked); a failure to be passed over; or a
/// rate-limit signal, which stops the whole resolution.
#[derive(Debug)]
pub enum LinkOutcome {
    Found(RepoDetails),
    NotFound,
    Missing,
    Failed,
    RateLimited,
}

impl View for LinkOutcome {
    type V = OutcomeV;

    open spec fn view(&self) -> OutcomeV {
        match self {
            LinkOutcome::Found(d) => OutcomeV::Found(d@),
            LinkOutcome::NotFound => OutcomeV::NotFound,
            LinkOutcome::Missing => OutcomeV::Missing,
            LinkOutcome::Failed => OutcomeV::Failed,
            LinkOutcome::RateLimited => OutcomeV::RateLimited,
        }
    }
}

/// The resolver's bookkeeping is consistent.
pub open spec fn resolution_wf(m: ResolutionV) -> bool {
    0 <= m.next_index <= m.links.len()
}

/// The next step of a resolver state.
pub open spec fn spec_next_step(m: ResolutionV) -> StepV {
    if m.aborted || m.next_index >= m.links.len() {
        StepV::Done
    } else if m.links[m.next_index].ident == m.self_ident {
        StepV::SkipSelf
    } else {
        StepV::Fetch(m.links[m.next_index].ident)
    }
}

/// How one fetch outcome advances the resolver: a snapshot resolves the
/// current link, a not-found records its target as known missing, a miss or
/// failure passes it over, and a rate limit aborts the remaining links.
pub open spec fn spec_apply(m: ResolutionV, o: OutcomeV) -> ResolutionV {
    match o {
        OutcomeV::Found(d) => ResolutionV {
            resolved: m.resolved.push(
                FullRepoLinkV { link: m.links[m.next_index], details: d },
            ),
            next_index: m.next_index + 1,
            ..m
        },
        OutcomeV::NotFound => ResolutionV {
            not_found: m.not_found.push(m.links[m.next_index].ident),
            next_index: m.next_index + 1,
            ..m
        },
        OutcomeV::Missing => ResolutionV { next_index: m.next_index + 1, ..m },
        OutcomeV::Failed => ResolutionV { next_index: m.next_index + 1, ..m },
        OutcomeV::RateLimited => ResolutionV { aborted: true, ..m },
    }
}

/// Resolves the links of one document, one at a time, in document order.
/// The caller fetches; this machine decides. Links pointing at the document
/// itself are passed over; a rate-limit outcome aborts the rest.
#[derive(Debug)]
pub struct LinkResolution {
    pub self_ident: RepoIdent,
    pub links: Vec<RepoLink>,
    pub allow_source_refresh: bool,
    pub next_index: usize,
    pub resolved: Vec<FullRepoLink>,
    pub not_found: Vec<RepoIdent>,
    pub aborted: bool,
}

impl View for LinkResolution {
    type V = ResolutionV;

    open spec fn view(&self) -> ResolutionV {
        ResolutionV {
            self_ident: self.self_ident@,
            links: self.links.deep_view(),
            allow_source_refresh: self.allow_source_refresh,
            next_index: self.next_index as int,
            resolved: self.resolved.deep_view(),
            not_found: self.not_found.deep_view(),
            aborted: self.aborted,
        }
    }
}

impl LinkResolution {
    /// Starts resolving the given links of the document `self_ident`.
    pub fn new(self_ident: RepoIdent, links: Vec<RepoLink>, allow_source_refresh: bool) -> (r:
        Self)
        ensures
            r@ == (ResolutionV {
                self_ident: self_ident@,
                links: links.deep_view(),
                allow_source_refresh,
                next_index: 0,
                resolved: Seq::empty(),
                not_found: Seq::empty(),
                aborted: false,
            }),
            resolution_wf(r@),
    {
        let r = LinkResolution {
            self_ident,
            links,
            allow_source_refresh,
            next_index: 0,
            resolved: Vec::new(),
            not_found: Vec::new(),
            aborted: false,
        };
        proof {
            assert(r.resolved.deep_view() =~= Seq::<FullRepoLinkV>::empty());
            assert(r.not_found.deep_view() =~= Seq::<IdentV>::empty());
        }
        r
    }

    /// What to do next.
    pub fn next_step(&self) -> (r: LinkStep)
        requires
            resolution_wf(self@),
        ensures
            r@ == spec_next_step(self@),
    {
        if self.aborted || self.next_index >= self.links.len() {
            LinkStep::Done
        } else if self.links[self.next_index].ident == self.self_ident {
            LinkStep::SkipSelf
        } else {
            LinkStep::Fetch(self.links[self.next_index].ident.clone())
        }
    }

    /// Passes over the current link without resolving it.
    pub fn skip_current(&mut self)
        requires
            resolution_wf(old(self)@),
            !old(self)@.aborted,
            old(self)@.next_index < old(self)@.links.len(),
        ensures
            final(self)@ == (ResolutionV { next_index: old(self)@.next_index + 1, ..old(self)@ }),
            resolution_wf(final(self)@),
    {
        let n = self.links.len();
        self.next_index = self.next_index + 1;
        proof {
            assert(old(self)@.next_index < n);
            assert(self@ =~= (ResolutionV { next_index: old(self)@.next_index + 1, ..old(self)@ }));
        }
    }

    /// Feeds the outcome of fetching the current link's target back into
    /// the resolver.
    pub fn apply(&mut self, outcome: LinkOutcome)
        requires
            resolution_wf(old(self)@),
            !old(self)@.aborted,
            old(self)@.next_index < old(self)@.links.len(),
        ensures
            final(self)@ == spec_apply(old(self)@, outcome@),
            resolution_wf(final(self)@),
    {
        let n = self.links.len();
        proof {
            assert(old(self)@.next_index < n);
        }
        match outcome {
            LinkOutcome::Found(d) => {
                let link = self.links[self.next_index].clone();
                self.resolved.push(FullRepoLink { link, details: d });
                self.next_index = self.next_index + 1;
                proof {
                    assert(self.resolved.deep_view() =~= old(self).resolved.deep_view().push(
                        FullRepoLinkV {
                            link: old(self)@.links[old(self)@.next_index],
                            details: d@,
                        },
                    ));
                    assert(self@ =~= spec_apply(old(self)@, outcome@));
                }
            },
            LinkOutcome::NotFound => {
                let id = self.links[self.next_index].ident.clone();
                self.not_found.push(id);
                self.next_index = self.next_index + 1;
                proof {
                    assert(self.not_found.deep_view() =~= old(self).not_found.deep_view().push(
                        old(self)@.links[old(self)@.next_index].ident,
                    ));
                    assert(self@ =~= spec_apply(old(self)@, outcome@));
                }
            },
            LinkOutcome::Missing => {
                self.next_index = self.next_index + 1;
                proof {
                    assert(self@ =~= spec_apply(old(self)@, outcome@));
                }
            },
            LinkOutcome::Failed => {
                self.next_index = self.next_index + 1;
                proof {
                    assert(self@ =~= spec_apply(old(self)@, outcome@));
                }
            },
            LinkOutcome::RateLimited => {
                self.aborted = true;
                proof {
                    assert(self@ =~= spec_apply(old(self)@, outcome@));
                }
            },
        }
    }

    /// Assembles the finished resolution and the document into a view.
    pub fn into_full(self, repo: ReadmeRepo) -> (r: FullReadmeRepo)
        ensures
            r@ == (FullReadmeRepoV {
                repo: repo@,
                links: self.resolved.deep_view(),
                not_found: self.not_found.deep_view(),
            }),
    {
        FullReadmeRepo { repo, links: self.resolved, not_found: self.not_found }
    }
}

/// Law: when the source reports rate-limiting, link resolution stops at
/// once — the next step is `Done`, and the resolved and known-missing sets
/// stay as they are — and every remaining link target that is neither
/// resolved nor known missing is reported unresolved in the view assembled
/// from this state, rather than raising an error.
pub proof fn lemma_rate_limit_stops_resolution(m: ResolutionV, repo: ReadmeRepoV, j: int)
    requires
        resolution_wf(m),
        repo.repo_links == m.links,
    ensures
        spec_next_step(spec_apply(m, OutcomeV::RateLimited)) is Done,
        spec_apply(m, OutcomeV::RateLimited).resolved == m.resolved,
        spec_apply(m, OutcomeV::RateLimited).not_found == m.not_found,
        (m.next_index <= j < m.links.len() && !crate::source::resolved_idents(
            m.resolved,
        ).contains(m.links[j].ident) && !m.not_found.contains(m.links[j].ident))
            ==> spec_missing_links(
            FullReadmeRepoV { repo, links: m.resolved, not_found: m.not_found },
        ).contains(m.links[j].ident),
{
    if m.next_index <= j < m.links.len() && !crate::source::resolved_idents(m.resolved).contains(
        m.links[j].ident,
    ) && !m.not_found.contains(m.links[j].ident) {
        let f = FullReadmeRepoV { repo, links: m.resolved, not_found: m.not_found };
        let x = m.links[j].ident;
        lemma_missing_links_characterization(f);
        assert(crate::source::link_idents(f.repo.repo_links).contains(x)) by {
            assert(crate::source::link_idents(f.repo.repo_links)[j] == x);
        }
        assert(crate::source::spec_is_missing(f, x));
    }
}

/// Is the stored list document itself stale: strictly older than the
/// refresh interval?
pub open spec fn spec_doc_stale(updated_at: i64, now: i64, refresh_secs: u64) -> bool {
    now - updated_at > refresh_secs
}

/// Executable staleness test for a stored document.
pub fn doc_needs_refresh(updated_at: i64, now: i64, refresh_secs: u64) -> (r: bool)
    ensures
        r == spec_doc_stale(updated_at, now, refresh_secs),
{
    (now as i128) - (updated_at as i128) > (refresh_secs as i128)
}

/// One metadata refresh task per unresolved target, in their sorted order.
pub open spec fn spec_metadata_tasks(missing: Seq<IdentV>) -> Seq<TaskV> {
    Seq::new(missing.len(), |i: int| TaskV::LoadRepoDetails(missing[i]))
}

/// What the follow-up planning of one served view enqueues: a metadata
/// refresh for every unresolved link target, then a document refresh when
/// the document itself is stale.
pub open spec fn spec_followups(
    q: Seq<TaskV>,
    f: FullReadmeRepoV,
    id: IdentV,
    now: i64,
    refresh_secs: u64,
) -> Seq<TaskV> {
    let q1 = spec_push_many(q, spec_metadata_tasks(spec_missing_links(f)));
    if spec_doc_stale(f.repo.updated_at, now, refresh_secs) {
        spec_push_task(q1, TaskV::LoadReadmeRepo(id))
    } else {
        q1
    }
}

/// The loader's own state: the memory cache, the refresh queue, and the two
/// staleness intervals. The stores and sources it consults belong to the
/// caller, which performs every fetch this logic asks for.
#[derive(Debug)]
pub struct Loader {
    pub cache: Cache,
    pub tasks: TaskQueue,
    /// How long a cached aggregate view stays fresh, in seconds.
    pub memory_update_time: u64,
    /// How old a stored list document may grow before a refresh task is
    /// queued, in seconds.
    pub readme_storage_refresh_time: u64,
}

impl Loader {
    /// A fresh loader with an empty cache and queue and the default
    /// staleness intervals: one minute for the memory cache, thirty
    /// minutes for stored documents.
    pub fn new() -> (r: Self)
        ensures
            r.cache@ == Seq::<(IdentV, CacheEntryV)>::empty(),
            r.tasks@ == Seq::<TaskV>::empty(),
            cache_keys_unique(r.cache@),
            tasks_distinct(r.tasks@),
            r.memory_update_time == 60,
            r.readme_storage_refresh_time == 1800,
    {
        Loader {
            cache: Cache::new(),
            tasks: TaskQueue::new(),
            memory_update_time: 60,
            readme_storage_refresh_time: 1800,
        }
    }

    /// Plans the background work a served view calls for: enqueues one
    /// metadata refresh per unresolved link target and, when the document
    /// itself is stale, one document refresh.
    pub fn enqueue_followups(&mut self, full: &FullReadmeRepo, ident: &RepoIdent, now: i64)
        requires
            tasks_distinct(old(self).tasks@),
        ensures
            tasks_distinct(final(self).tasks@),
            final(self).tasks@ == spec_followups(
                old(self).tasks@,
                full@,
                ident@,
                now,
                old(self).readme_storage_refresh_time,
            ),
            final(self).cache@ == old(self).cache@,
            final(self).memory_update_time == old(self).memory_update_time,
            final(self).readme_storage_refresh_time == old(self).readme_storage_refresh_time,
    {
        let missing = full.missing_links();
        let mut tasks: Vec<Task> = Vec::new();
        let mut i: usize = 0;
        proof {
            assert(tasks.deep_view() =~= spec_metadata_tasks(missing.deep_view().take(0)));
        }
        while i < missing.len()
            invariant
                0 <= i <= missing.len(),
                missing.deep_view() == spec_missing_links(full@),
                tasks.deep_view() == spec_metadata_tasks(missing.deep_view().take(i as int)),
            decreases missing.len() - i,
        {
            let ghost tv = tasks.deep_view();
            tasks.push(Task::LoadRepoDetails(missing[i].clone()));
            proof {
                assert(tasks.deep_view() =~= tv.push(
                    TaskV::LoadRepoDetails(missing.deep_view()[i as int]),
                ));
                assert(tasks.deep_view() =~= spec_metadata_tasks(
                    missing.deep_view().take(i as int + 1),
                ));
            }
            i = i + 1;
        }
        proof {
            assert(missing.deep_view().take(missing.len() as int) =~= missing.deep_view());
        }
        self.tasks.push_many(tasks);
        if doc_needs_refresh(full.repo.updated_at, now, self.readme_storage_refresh_time) {
            self.tasks.push(Task::LoadReadmeRepo(ident.clone()));
        }
    }
}

/// The outcome of asking the source for metadata, recorded as a storable
/// fact: a snapshot when the source returned one, otherwise the time-stamped
/// fact that the repository does not exist.
pub fn details_item_from_fetch(ident: &RepoIdent, fetched: Option<RepoDetails>, now: i64) -> (r:
    RepoDetailsItem)
    ensures
        r@ == match fetched.deep_view() {
            Some(d) => crate::source::DetailsItemV::Found(d),
            None => crate::source::DetailsItemV::NotFound { ident: ident@, updated_at: now },
        },
{
    match fetched {
        Some(d) => RepoDetailsItem::Found(d),
        None => RepoDetailsItem::NotFound { ident: ident.clone(), updated_at: now },
    }
}

/// The given links without those pointing at the document itself.
pub open spec fn spec_retain_links(links: Seq<LinkV>, id: IdentV) -> Seq<LinkV>
    decreases links.len(),
{
    if links.len() == 0 {
        Seq::empty()
    } else if links[0].ident != id {
        seq![links[0]] + spec_retain_links(links.drop_first(), id)
    } else {
        spec_retain_links(links.drop_first(), id)
    }
}

/// Builds the stored list-document record from a fetched readme: extracts
/// the links, drops those pointing at the document itself, and refuses a
/// document with no links left, which is not a list document.
pub fn build_readme_repo(details: RepoDetails, readme: String, ident: &RepoIdent, now: i64) -> (r:
    Result<ReadmeRepo, crate::source::LoadError>)
    ensures
        ({
            let kept = spec_retain_links(crate::markdown::spec_extract(readme@), ident@);
            match r {
                Ok(repo) => kept.len() > 0 && repo@ == (ReadmeRepoV {
                    details: details@,
                    readme_content: readme@,
                    repo_links: kept,
                    updated_at: now,
                }),
                Err(e) => kept.len() == 0 && e is NotAwesomeList,
            }
        }),
{
    let parsed = crate::markdown::parse_markdown(readme.as_str());
    let mut links = match parsed {
        Ok(l) => l,
        Err(_) => {
            proof {
                assert(false);
            }
            Vec::new()
        },
    };
    let ghost all = links.deep_view();
    let mut kept: Vec<RepoLink> = Vec::new();
    proof {
        assert(all.skip(0) =~= all);
        assert(kept.deep_view() =~= Seq::<LinkV>::empty());
        assert(kept.deep_view() + spec_retain_links(all, ident@) =~= spec_retain_links(
            all,
            ident@,
        ));
    }
    let mut i: usize = 0;
    while i < links.len()
        invariant
            0 <= i <= links.len(),
            all == links.deep_view(),
            spec_retain_links(all, ident@) =~= kept.deep_view() + spec_retain_links(
                all.skip(i as int),
                ident@,
            ),
        decreases links.len() - i,
    {
        proof {
            assert(all.skip(i as int)[0] == all[i as int]);
            assert(all.skip(i as int).drop_first() =~= all.skip(i as int + 1));
        }
        if links[i].ident == *ident {
        } else {
            let l = links[i].clone();
            kept.push(l);
            proof {
                assert(kept.deep_view() =~= kept.deep_view().drop_last().push(all[i as int]));
            }
        }
        i = i + 1;
    }
    proof {
        assert(all.skip(links.len() as int) =~= Seq::<LinkV>::empty());
        assert(kept.deep_view() =~= spec_retain_links(all, ident@));
    }
    if kept.len() == 0 {
        return Err(crate::source::LoadError::NotAwesomeList);
    }
    Ok(ReadmeRepo { details, readme_content: readme, repo_links: kept, updated_at: now })
}

/// The star count a list document is ranked by.
pub open spec fn star_key(r: ReadmeRepoV) -> u32 {
    r.details.stargazer_count
}

/// Inserts a document into a list kept in descending star order, after all
/// documents with at least as many stars, so that earlier documents keep
/// their place among equals.
pub open spec fn spec_insert_by_stars(acc: Seq<ReadmeRepoV>, x: ReadmeRepoV) -> Seq<ReadmeRepoV>
    decreases acc.len(),
{
    if acc.len() == 0 {
        seq![x]
    } else if star_key(acc[0]) >= star_key(x) {
        seq![acc[0]] + spec_insert_by_stars(acc.drop_first(), x)
    } else {
        seq![x] + acc
    }
}

/// The documents from position `i` on, folded into `acc` in descending
/// star order.
pub open spec fn spec_sort_by_stars_from(
    s: Seq<ReadmeRepoV>,
    i: int,
    acc: Seq<ReadmeRepoV>,
) -> Seq<ReadmeRepoV>
    decreases s.len() - i,
{
    if i < 0 || i >= s.len() {
        acc
    } else {
        spec_sort_by_stars_from(s, i + 1, spec_insert_by_stars(acc, s[i]))
    }
}

/// The stable descending-star ordering of a list of documents.
pub open spec fn spec_sort_by_stars(s: Seq<ReadmeRepoV>) -> Seq<ReadmeRepoV> {
    spec_sort_by_stars_from(s, 0, Seq::empty())
}

/// The top `count` documents by star count, in descending star order.
pub open spec fn spec_rank_popular(s: Seq<ReadmeRepoV>, count: int) -> Seq<ReadmeRepoV> {
    if count < s.len() {
        spec_sort_by_stars(s).take(count)
    } else {
        spec_sort_by_stars(s)
    }
}

/// Splitting `spec_insert_by_stars` at a prefix of documents with at least
/// as many stars.
proof fn lemma_insert_by_stars_split(acc: Seq<ReadmeRepoV>, x: ReadmeRepoV, k: int)
    requires
        0 <= k <= acc.len(),
        forall|j: int| 0 <= j < k ==> star_key(acc[j]) >= star_key(x),
    ensures
        spec_insert_by_stars(acc, x) == acc.take(k) + spec_insert_by_stars(acc.skip(k), x),
    decreases k,
{
    if k == 0 {
        assert(acc.take(0) =~= Seq::<ReadmeRepoV>::empty());
        assert(acc.skip(0) =~= acc);
        assert(acc.take(0) + spec_insert_by_stars(acc, x) =~= spec_insert_by_stars(acc, x));
    } else {
        lemma_insert_by_stars_split(acc.drop_first(), x, k - 1);
        assert(acc.drop_first().take(k - 1) =~= acc.take(k).drop_first());
        assert(acc.drop_first().skip(k - 1) =~= acc.skip(k));
        assert(seq![acc[0]] + (acc.take(k).drop_first() + spec_insert_by_stars(acc.skip(k), x))
            =~= acc.take(k) + spec_insert_by_stars(acc.skip(k), x));
    }
}

/// Inserting keeps the descending order and grows the length by one.
pub proof fn lemma_insert_by_stars_sorted(acc: Seq<ReadmeRepoV>, x: ReadmeRepoV)
    requires
        forall|i: int, j: int|
            0 <= i < j < acc.len() ==> star_key(acc[i]) >= star_key(acc[j]),
    ensures
        spec_insert_by_stars(acc, x).len() == acc.len() + 1,
        forall|i: int, j: int|
            0 <= i < j < spec_insert_by_stars(acc, x).len() ==> star_key(
                spec_insert_by_stars(acc, x)[i],
            ) >= star_key(spec_insert_by_stars(acc, x)[j]),
    decreases acc.len(),
{
    let t = spec_insert_by_stars(acc, x);
    if acc.len() == 0 {
    } else if star_key(acc[0]) >= star_key(x) {
        assert forall|i: int, j: int|
            0 <= i < j < acc.drop_first().len() implies star_key(acc.drop_first()[i]) >= star_key(
            acc.drop_first()[j],
        ) by {
            assert(acc.drop_first()[i] == acc[i + 1] && acc.drop_first()[j] == acc[j + 1]);
        }
        lemma_insert_by_stars_sorted(acc.drop_first(), x);
        let t2 = spec_insert_by_stars(acc.drop_first(), x);
        assert(t =~= seq![acc[0]] + t2);
        assert forall|i: int, j: int|
            0 <= i < j < t.len() implies star_key(t[i]) >= star_key(t[j]) by {
            if i == 0 {
                assert(t[j] == t2[j - 1]);
                lemma_insert_by_stars_member(acc.drop_first(), x, j - 1);
                if t2[j - 1] != x {
                    assert(acc.drop_first().contains(t2[j - 1]));
                    let u = choose|u: int|
                        0 <= u < acc.drop_first().len() && acc.drop_first()[u] == t2[j - 1];
                    assert(acc[u + 1] == t2[j - 1]);
                    if u + 1 > 0 {
                        assert(star_key(acc[0]) >= star_key(acc[u + 1]));
                    }
                }
            } else {
                assert(t[i] == t2[i - 1] && t[j] == t2[j - 1]);
            }
        }
    } else {
        assert(t =~= seq![x] + acc);
        assert forall|i: int, j: int|
            0 <= i < j < t.len() implies star_key(t[i]) >= star_key(t[j]) by {
            if i == 0 {
                assert(t[j] == acc[j - 1]);
                if j > 1 {
                    assert(star_key(acc[0]) >= star_key(acc[j - 1]));
                }
            } else {
                assert(t[i] == acc[i - 1] && t[j] == acc[j - 1]);
            }
        }
    }
}

/// Every document of an insertion result is the inserted one or one of the
/// originals, with at least as many stars as the inserted one when it sits
/// before it would.
proof fn lemma_insert_by_stars_member(acc: Seq<ReadmeRepoV>, x: ReadmeRepoV, w: int)
    requires
        0 <= w < spec_insert_by_stars(acc, x).len(),
    ensures
        spec_insert_by_stars(acc, x)[w] == x || acc.contains(spec_insert_by_stars(acc, x)[w]),
    decreases acc.len(),
{
    let t = spec_insert_by_stars(acc, x);
    if acc.len() == 0 {
    } else if star_key(acc[0]) >= star_key(x) {
        let t2 = spec_insert_by_stars(acc.drop_first(), x);
        assert(t =~= seq![acc[0]] + t2);
        if w == 0 {
            assert(acc.contains(acc[0]));
        } else {
            lemma_insert_by_stars_member(acc.drop_first(), x, w - 1);
            assert(t[w] == t2[w - 1]);
            if acc.drop_first().contains(t2[w - 1]) {
                let u = choose|u: int|
                    0 <= u < acc.drop_first().len() && acc.drop_first()[u] == t2[w - 1];
                assert(acc[u + 1] == t2[w - 1]);
                assert(acc.contains(t[w]));
            }
        }
    } else {
        assert(t =~= seq![x] + acc);
        if w > 0 {
            assert(t[w] == acc[w - 1]);
            assert(acc.contains(t[w]));
        }
    }
}

/// Law: the popularity ranking is sorted by stars, descending, and no
/// longer than the asked-for count.
pub proof fn lemma_rank_popular_sorted(s: Seq<ReadmeRepoV>, count: int)
    requires
        count >= 0,
    ensures
        spec_rank_popular(s, count).len() == if count < s.len() {
            count
        } else {
            s.len() as int
        },
        forall|i: int, j: int|
            0 <= i < j < spec_rank_popular(s, count).len() ==> star_key(
                spec_rank_popular(s, count)[i],
            ) >= star_key(spec_rank_popular(s, count)[j]),
{
    lemma_sort_by_stars_from_sorted(s, 0, Seq::empty());
    let sorted = spec_sort_by_stars(s);
    let r = spec_rank_popular(s, count);
    assert forall|i: int, j: int|
        0 <= i < j < r.len() implies star_key(r[i]) >= star_key(r[j]) by {
        assert(r[i] == sorted[i] && r[j] == sorted[j]);
    }
}

/// The sorting fold keeps order and counts every element once.
proof fn lemma_sort_by_stars_from_sorted(s: Seq<ReadmeRepoV>, i: int, acc: Seq<ReadmeRepoV>)
    requires
        0 <= i <= s.len(),
        forall|p: int, q: int|
            0 <= p < q < acc.len() ==> star_key(acc[p]) >= star_key(acc[q]),
    ensures
        spec_sort_by_stars_from(s, i, acc).len() == acc.len() + s.len() - i,
        forall|p: int, q: int|
            0 <= p < q < spec_sort_by_stars_from(s, i, acc).len() ==> star_key(
                spec_sort_by_stars_from(s, i, acc)[p],
            ) >= star_key(spec_sort_by_stars_from(s, i, acc)[q]),
    decreases s.len() - i,
{
    if i < s.len() {
        lemma_insert_by_stars_sorted(acc, s[i]);
        lemma_sort_by_stars_from_sorted(s, i + 1, spec_insert_by_stars(acc, s[i]));
    }
}

/// Inserts one document into a vector kept in descending star order.
#[verifier::loop_isolation(false)]
fn insert_by_stars(out: &mut Vec<ReadmeRepo>, x: ReadmeRepo)
    ensures
        final(out).deep_view() == spec_insert_by_stars(old(out).deep_view(), x@),
{
    let ghost s = out.deep_view();
    let mut k: usize = 0;
    while k < out.len()
        invariant
            0 <= k <= out.len(),
            s == out.deep_view(),
            forall|j: int| 0 <= j < k ==> star_key(s[j]) >= star_key(x@),
        decreases out.len() - k,
    {
        if out[k].details.stargazer_count >= x.details.stargazer_count {
            k = k + 1;
        } else {
            proof {
                lemma_insert_by_stars_split(s, x@, k as int);
                assert(s.skip(k as int)[0] == s[k as int]);
                assert(spec_insert_by_stars(s.skip(k as int), x@) =~= seq![x@] + s.skip(k as int));
            }
            out.insert(k, x);
            proof {
                assert(out.deep_view() =~= s.take(k as int) + (seq![x@] + s.skip(k as int)));
            }
            return ;
        }
    }
    proof {
        lemma_insert_by_stars_split(s, x@, s.len() as int);
        assert(s.skip(s.len() as int) =~= Seq::<ReadmeRepoV>::empty());
        assert(spec_insert_by_stars(s.skip(s.len() as int), x@) =~= seq![x@]);
    }
    out.push(x);
    proof {
        assert(out.deep_view() =~= s.take(s.len() as int) + seq![x@]);
    }
}

/// The most popular list documents: sorted by star count, descending,
/// stably, and cut to the asked-for count.
#[verifier::loop_isolation(false)]
pub fn rank_popular(repos: Vec<ReadmeRepo>, count: usize) -> (r: Vec<ReadmeRepo>)
    ensures
        r.deep_view() == spec_rank_popular(repos.deep_view(), count as int),
        r.len() == if (count as int) < repos.deep_view().len() {
            count as int
        } else {
            repos.deep_view().len() as int
        },
        forall|i: int, j: int|
            0 <= i < j < r.deep_view().len() ==> star_key(r.deep_view()[i]) >= star_key(
                r.deep_view()[j],
            ),
{
    proof {
        lemma_rank_popular_sorted(repos.deep_view(), count as int);
    }
    let ghost s0 = repos.deep_view();
    let mut repos = repos;
    let mut out: Vec<ReadmeRepo> = Vec::new();
    proof {
        assert(out.deep_view() =~= Seq::<ReadmeRepoV>::empty());
        assert(repos.deep_view() =~= s0.skip(0));
    }
    proof {
        lemma_sort_by_stars_from_sorted(s0, 0, Seq::empty());
    }
    let ghost gi: int = 0;
    while repos.len() > 0
        invariant
            0 <= gi <= s0.len(),
            repos.deep_view() == s0.skip(gi),
            spec_sort_by_stars(s0) == spec_sort_by_stars_from(s0, gi, out.deep_view()),
        decreases repos.len(),
    {
        let x = repos.remove(0);
        proof {
            assert(x@ == s0.skip(gi)[0]);
            assert(s0.skip(gi)[0] == s0[gi]);
            assert(repos.deep_view() =~= s0.skip(gi).drop_first());
            assert(s0.skip(gi).drop_first() =~= s0.skip(gi + 1));
        }
        insert_by_stars(&mut out, x);
        proof {
            gi = gi + 1;
        }
    }
    proof {
        assert(s0.skip(gi).len() == 0);
        assert(gi == s0.len());
    }
    if count < out.len() {
        out.truncate(count);
        proof {
            assert(out.deep_view() =~= spec_sort_by_stars(s0).take(count as int));
        }
    } else {
        proof {
            lemma_sort_by_stars_from_sorted(s0, 0, Seq::empty());
        }
    }
    out
}

/// The star count an assembled view is ranked by.
pub open spec fn full_star_key(r: FullReadmeRepoV) -> u32 {
    r.repo.details.stargazer_count
}

/// Inserts an assembled view into a list kept in descending star order,
/// stably.
pub open spec fn spec_insert_full_by_stars(
    acc: Seq<FullReadmeRepoV>,
    x: FullReadmeRepoV,
) -> Seq<FullReadmeRepoV>
    decreases acc.len(),
{
    if acc.len() == 0 {
        seq![x]
    } else if full_star_key(acc[0]) >= full_star_key(x) {
        seq![acc[0]] + spec_insert_full_by_stars(acc.drop_first(), x)
    } else {
        seq![x] + acc
    }
}

/// The views from position `i` on, folded into `acc` in descending star
/// order.
pub open spec fn spec_sort_full_from(
    s: Seq<FullReadmeRepoV>,
    i: int,
    acc: Seq<FullReadmeRepoV>,
) -> Seq<FullReadmeRepoV>
    decreases s.len() - i,
{
    if i < 0 || i >= s.len() {
        acc
    } else {
        spec_sort_full_from(s, i + 1, spec_insert_full_by_stars(acc, s[i]))
    }
}

/// The stable descending-star ordering of a list of assembled views.
pub open spec fn spec_sort_full_by_stars(s: Seq<FullReadmeRepoV>) -> Seq<FullReadmeRepoV> {
    spec_sort_full_from(s, 0, Seq::empty())
}

/// Splitting `spec_insert_full_by_stars` at a prefix of views with at
/// least as many stars.
proof fn lemma_insert_full_split(acc: Seq<FullReadmeRepoV>, x: FullReadmeRepoV, k: int)
    requires
        0 <= k <= acc.len(),
        forall|j: int| 0 <= j < k ==> full_star_key(acc[j]) >= full_star_key(x),
    ensures
        spec_insert_full_by_stars(acc, x) == acc.take(k) + spec_insert_full_by_stars(
            acc.skip(k),
            x,
        ),
    decreases k,
{
    if k == 0 {
        assert(acc.take(0) =~= Seq::<FullReadmeRepoV>::empty());
        assert(acc.skip(0) =~= acc);
        assert(acc.take(0) + spec_insert_full_by_stars(acc, x) =~= spec_insert_full_by_stars(
            acc,
            x,
        ));
    } else {
        lemma_insert_full_split(acc.drop_first(), x, k - 1);
        assert(acc.drop_first().take(k - 1) =~= acc.take(k).drop_first());
        assert(acc.drop_first().skip(k - 1) =~= acc.skip(k));
        assert(seq![acc[0]] + (acc.take(k).drop_first() + spec_insert_full_by_stars(
            acc.skip(k),
            x,
        )) =~= acc.take(k) + spec_insert_full_by_stars(acc.skip(k), x));
    }
}

/// Inserts one assembled view into a vector kept in descending star order.
#[verifier::loop_isolation(false)]
fn insert_full_by_stars(out: &mut Vec<FullReadmeRepo>, x: FullReadmeRepo)
    ensures
        final(out).deep_view() == spec_insert_full_by_stars(old(out).deep_view(), x@),
{
    let ghost s = out.deep_view();
    let mut k: usize = 0;
    while k < out.len()
        invariant
            0 <= k <= out.len(),
            s == out.deep_view(),
            forall|j: int| 0 <= j < k ==> full_star_key(s[j]) >= full_star_key(x@),
        decreases out.len() - k,
    {
        if out[k].repo.details.stargazer_count >= x.repo.details.stargazer_count {
            k = k + 1;
        } else {
            proof {
                lemma_insert_full_split(s, x@, k as int);
                assert(s.skip(k as int)[0] == s[k as int]);
                assert(spec_insert_full_by_stars(s.skip(k as int), x@) =~= seq![x@] + s.skip(
                    k as int,
                ));
            }
            out.insert(k, x);
            proof {
                assert(out.deep_view() =~= s.take(k as int) + (seq![x@] + s.skip(k as int)));
            }
            return ;
        }
    }
    proof {
        lemma_insert_full_split(s, x@, s.len() as int);
        assert(s.skip(s.len() as int) =~= Seq::<FullReadmeRepoV>::empty());
        assert(spec_insert_full_by_stars(s.skip(s.len() as int), x@) =~= seq![x@]);
    }
    out.push(x);
    proof {
        assert(out.deep_view() =~= s.take(s.len() as int) + seq![x@]);
    }
}

/// Sorts assembled views by star count, descending, stably. The popular
/// listing sorts twice: once over stored records to choose the candidates,
/// and once more here after re-resolving them, since resolution may have
/// served fresher, cache-enriched data.
#[verifier::loop_isolation(false)]
pub fn sort_full_by_stars(repos: Vec<FullReadmeRepo>) -> (r: Vec<FullReadmeRepo>)
    ensures
        r.deep_view() == spec_sort_full_by_stars(repos.deep_view()),
{
    let ghost s0 = repos.deep_view();
    let mut repos = repos;
    let mut out: Vec<FullReadmeRepo> = Vec::new();
    proof {
        assert(out.deep_view() =~= Seq::<FullReadmeRepoV>::empty());
        assert(repos.deep_view() =~= s0.skip(0));
    }
    let ghost gi: int = 0;
    while repos.len() > 0
        invariant
            0 <= gi <= s0.len(),
            repos.deep_view() == s0.skip(gi),
            spec_sort_full_by_stars(s0) == spec_sort_full_from(s0, gi, out.deep_view()),
        decreases repos.len(),
    {
        let x = repos.remove(0);
        proof {
            assert(x@ == s0.skip(gi)[0]);
            assert(s0.skip(gi)[0] == s0[gi]);
            assert(repos.deep_view() =~= s0.skip(gi).drop_first());
            assert(s0.skip(gi).drop_first() =~= s0.skip(gi + 1));
        }
        insert_full_by_stars(&mut out, x);
        proof {
            gi = gi + 1;
        }
    }
    proof {
        assert(s0.skip(gi).len() == 0);
        assert(gi == s0.len());
    }
    out
}

} // verus!
