//! The refresh engine: one task for each key that is asked for, kept in a
//! cache that is bounded by weight.

use crate::request::{share, Request, RequestView};
use crate::response::{kept_view, Response, ResponseView};
use crate::router::{first_match, regex_captures, routed_captures, Router};
use crate::source::{Fetch, Source, Sources};
use crate::time::{Instant};
use crate::writer::{job_ttl, WriteJob, WriteJobView};
use moka::sync::Cache;
use std::sync::Arc;
use vstd::prelude::*;
use vstd::utf8::encode_utf8;

verus! {

/// The concurrent cache of the `moka` crate.
#[verifier::external_type_specification]
#[verifier::external_body]
#[verifier::reject_recursive_types(K)]
#[verifier::reject_recursive_types(V)]
#[verifier::reject_recursive_types(S)]
pub struct ExCache<K, V, S>(Cache<K, V, S>);

/// What is added to the weight of every task for the task itself.
pub const TASK_OVERHEAD: u64 = 128;

/// The weight bound of an engine that is made without one: 100 MiB.
pub const DEFAULT_MAX_BYTES: u64 = 104_857_600;

/// The refresh state of one key. The request carries the registry, and
/// the registry names the source of the task.
#[derive(Debug)]
pub struct MonitorTask {
    last_touch: Instant,
    request: Request,
    last_response: Option<Response>,
    source: String,
    target: bool,
}

pub struct MonitorTaskView {
    pub last_touch: Instant,
    pub request: RequestView,
    pub last_response: Option<ResponseView>,
    /// The name of the source.
    pub source: Seq<char>,
    /// Whether values are written back to a warm tier.
    pub target: bool,
}

impl View for MonitorTask {
    type V = MonitorTaskView;

    closed spec fn view(&self) -> MonitorTaskView {
        MonitorTaskView {
            last_touch: self.last_touch,
            request: self.request@,
            last_response: match self.last_response {
                Some(r) => Some(r@),
                None => None,
            },
            source: self.source@,
            target: self.target,
        }
    }
}

impl Clone for MonitorTask {
    fn clone(&self) -> (r: Self)
        ensures
            r@ == self@,
    {
        proof {
            use_type_invariant(self);
        }
        MonitorTask {
            last_touch: self.last_touch,
            request: self.request.clone(),
            last_response: match &self.last_response {
                Some(r) => Some(r.clone()),
                None => None,
            },
            source: self.source.clone(),
            target: self.target,
        }
    }
}

/// What a task does when it is polled.
#[derive(Debug, Clone, Copy, PartialEq, Eq)]
pub enum PollAction {
    /// The task has not been touched for its expiry, or never had an
    /// answer: it may be evicted.
    Expired,
    /// Half the time to live of the value has passed: fetch anew.
    Refresh,
    /// Nothing until this instant.
    Wait(Instant),
}

/// The instant from which a value is refreshed: half its time to live
/// after it was produced.
pub open spec fn next_poll(r: ResponseView) -> nat {
    r.updated_at.nanos() + r.ttl.total_nanos() / 2
}

/// Whether a task that was last touched at `last_touch` has expired at
/// `now`.
pub open spec fn expired(last_touch: Instant, r: ResponseView, now: Instant) -> bool {
    now.nanos() > last_touch.nanos() + r.expiry.total_nanos()
}

/// What polling at `now` gives.
pub open spec fn poll_spec(task: MonitorTaskView, now: Instant) -> PollAction {
    match task.last_response {
        None => PollAction::Expired,
        Some(r) => if expired(task.last_touch, r, now) {
            PollAction::Expired
        } else if now.nanos() > next_poll(r) {
            PollAction::Refresh
        } else {
            PollAction::Wait(
                Instant {
                    nanos: if next_poll(r) <= u128::MAX {
                        next_poll(r) as u128
                    } else {
                        u128::MAX
                    },
                },
            )
        },
    }
}

/// The weight of a task: the bytes of its key, of the names and texts of
/// its captures and of its value if it has one, and a fixed overhead.
pub open spec fn weight(key: Seq<char>, captures_len: nat, value: Option<Seq<char>>) -> nat {
    encode_utf8(key).len() + captures_len + (match value {
        Some(v) => encode_utf8(v).len(),
        None => 0,
    }) + TASK_OVERHEAD as nat
}

impl MonitorTask {
    #[verifier::type_invariant]
    spec fn well_formed(&self) -> bool {
        self.request@.sources is Some && self.request@.sources->0@.contains_key(self.source@)
    }

    /// The source of the task: the one that the registry of its request
    /// names by the task's source name.
    pub open spec fn source_of(task: MonitorTaskView) -> Source
        recommends
            task.request.sources is Some,
    {
        task.request.sources->0@[task.source]
    }

    /// A task for `request` on the source that the registry `sources`
    /// names `source`, touched at `now`, without an answer yet.
    pub fn new(sources: Arc<Sources>, source: &str, request: Request, now: Instant) -> (t: Self)
        requires
            sources@.contains_key(source@),
        ensures
            t@ == (MonitorTaskView {
                last_touch: now,
                request: RequestView { sources: Some(*sources), ..request@ },
                last_response: None,
                source: source@,
                target: false,
            }),
    {
        MonitorTask {
            last_touch: now,
            request: request.with_sources(sources),
            last_response: None,
            source: source.to_owned(),
            target: false,
        }
    }

    /// Marks the task as used at `now`.
    pub fn touch(&mut self, now: Instant)
        ensures
            final(self)@ == (MonitorTaskView { last_touch: now, ..old(self)@ }),
    {
        proof {
            use_type_invariant(&*self);
        }
        self.last_touch = now;
    }

    /// The value of the last answer.
    pub fn last_result(&self) -> (v: Option<String>)
        ensures
            match v {
                Some(s) => self@.last_response is Some && self@.last_response->0.value == Some(
                    s@,
                ),
                None => self@.last_response is None || self@.last_response->0.value is None,
            },
    {
        match &self.last_response {
            Some(response) => response.value(),
            None => None,
        }
    }

    /// The task with values written back to a warm tier.
    pub fn with_target(self) -> (t: Self)
        ensures
            t@ == (MonitorTaskView { target: true, ..self@ }),
    {
        proof {
            use_type_invariant(&self);
        }
        MonitorTask {
            last_touch: self.last_touch,
            request: self.request,
            last_response: self.last_response,
            source: self.source,
            target: true,
        }
    }

    pub fn request(&self) -> (r: &Request)
        ensures
            r@ == self@.request,
            r@.sources is Some,
            r@.sources->0@.contains_key(self@.source),
    {
        proof {
            use_type_invariant(self);
        }
        &self.request
    }

    /// The source of the task.
    pub fn source(&self) -> (s: &Source)
        ensures
            self@.request.sources is Some,
            self@.request.sources->0@.contains_key(self@.source),
            *s == Self::source_of(self@),
    {
        proof {
            use_type_invariant(self);
        }
        match self.request.sources() {
            Some(sources) => match sources.get(self.source.as_str()) {
                Some(source) => source,
                None => vstd::pervasive::unreached(),
            },
            None => vstd::pervasive::unreached(),
        }
    }

    /// What has to be done outside to refresh the task.
    pub fn fetch(&self, now: Instant) -> (f: Fetch)
        ensures
            self@.request.sources is Some,
            exists|request: Request|
                request@ == self@.request && call_ensures(
                    Source::plan,
                    (&Self::source_of(self@), &request, now),
                    f,
                ),
    {
        let source = self.source();
        let f = source.plan(&self.request, now);
        assert(call_ensures(Source::plan, (&Self::source_of(self@), &self.request, now), f));
        f
    }

    /// Takes in a fresh answer of the source. What is kept is the answer,
    /// without its value where its times do not allow one to be kept. The
    /// value of what is kept is returned and, where values are written
    /// back, the job that writes it under the key for the answer's time
    /// to live.
    pub fn get(&mut self, response: Response) -> (out: (Option<String>, Option<WriteJob>))
        ensures
            final(self)@ == (MonitorTaskView {
                last_response: Some(kept_view(response@)),
                ..old(self)@
            }),
            match out.0 {
                Some(v) => kept_view(response@).value == Some(v@),
                None => kept_view(response@).value is None,
            },
            match out.1 {
                Some(job) => old(self)@.target && job@ == (WriteJobView {
                    key: old(self)@.request.key,
                    value: kept_view(response@).value,
                    ttl_secs: job_ttl(response@.ttl),
                }),
                None => !old(self)@.target,
            },
    {
        proof {
            use_type_invariant(&*self);
        }
        let kept = response.kept();
        let value = kept.value();
        let job = if self.target {
            Some(WriteJob::new(self.request.key(), kept.value(), kept.ttl()))
        } else {
            None
        };
        self.last_response = Some(kept);
        (value, job)
    }

    /// What the task does at `now`: it has expired where it never had an
    /// answer or was not touched for the expiry of its last answer; it is
    /// refreshed where more than half the time to live of its value has
    /// passed; else it waits for that instant.
    pub fn poll(&self, now: Instant) -> (action: PollAction)
        ensures
            action == poll_spec(self@, now),
    {
        match &self.last_response {
            None => PollAction::Expired,
            Some(response) => {
                let poll_until = self.last_touch.as_nanos().checked_add(
                    response.expiry().as_nanos(),
                );
                let expired = match poll_until {
                    Some(until) => now.as_nanos() > until,
                    None => false,
                };
                if expired {
                    return PollAction::Expired;
                }
                let next = response.updated_at().as_nanos().checked_add(
                    response.ttl().as_nanos() / 2,
                );
                match next {
                    Some(next) => if now.as_nanos() > next {
                        PollAction::Refresh
                    } else {
                        PollAction::Wait(Instant::from_nanos(next))
                    },
                    None => PollAction::Wait(Instant::from_nanos(u128::MAX)),
                }
            },
        }
    }

    /// The weight of the task, as far as 32 bits can count it.
    pub fn estimated_size(&self) -> (size: u32)
        ensures
            size == ({
                let w = weight(
                    self@.request.key,
                    self.captures_len(),
                    match self@.last_response {
                        Some(r) => r.value,
                        None => None,
                    },
                );
                if w <= u32::MAX {
                    w
                } else {
                    u32::MAX as nat
                }
            }),
    {
        let key_len = self.request.key().as_bytes().len() as u64;
        let captures_len = self.request.captures().total_len();
        let value_len = match self.last_result() {
            Some(value) => value.as_str().as_bytes().len() as u64,
            None => 0,
        };
        let total = key_len.saturating_add(captures_len).saturating_add(value_len).saturating_add(
            TASK_OVERHEAD,
        );
        if total > u32::MAX as u64 {
            u32::MAX
        } else {
            total as u32
        }
    }

    /// The bytes that the names and texts of the captures take.
    pub closed spec fn captures_len(&self) -> nat {
        self.request.captures_len()
    }
}

/// What asking the engine for a key gives.
#[derive(Debug)]
pub enum Lookup {
    /// The value is at hand.
    Hit(String),
    /// No rule routes the key, or the rule names no source.
    Miss,
    /// The value has to be fetched; the task that goes with it is then stored.
    Fetch(MonitorTask),
}

pub enum LookupView {
    Hit(Seq<char>),
    Miss,
    Fetch(MonitorTaskView),
}

impl View for Lookup {
    type V = LookupView;

    open spec fn view(&self) -> LookupView {
        match self {
            Lookup::Hit(value) => LookupView::Hit(value@),
            Lookup::Miss => LookupView::Miss,
            Lookup::Fetch(task) => LookupView::Fetch(task@),
        }
    }
}

/// What the engine decides for a key, and the task to put back into the
/// cache if there is one.
#[derive(Debug)]
pub struct Resolution {
    pub outcome: Lookup,
    pub keep: Option<MonitorTask>,
}

/// What the cache held, by its contents.
pub open spec fn found_view(found: Option<MonitorTask>) -> Option<MonitorTaskView> {
    match found {
        Some(t) => Some(t@),
        None => None,
    }
}

/// Whether the task holds a value.
pub open spec fn has_value(task: MonitorTaskView) -> bool {
    task.last_response is Some && task.last_response->0.value is Some
}

/// The task that routing makes for `key`, if a rule matches it and names
/// a source of the registry.
pub open spec fn routed(
    key: Seq<char>,
    rules: Seq<crate::router::Rule>,
    sources: Sources,
    with_target: bool,
    now: Instant,
) -> Option<MonitorTaskView> {
    let i = first_match(rules, key, 0);
    if 0 <= i < rules.len() && sources@.contains_key(rules[i].source@) {
        Some(
            MonitorTaskView {
                last_touch: now,
                request: RequestView {
                    key,
                    captures: routed_captures(regex_captures(rules[i].pattern@, key)->0, key),
                    sources: Some(sources),
                },
                last_response: None,
                source: rules[i].source@,
                target: with_target,
            },
        )
    } else {
        None
    }
}

/// What the engine decides for `key` at `now`, given what the cache held
/// for it. A task that holds a value and needs no refresh yet is a hit. A
/// task that holds a value and is due for a refresh is fetched for again.
/// Without a task, or with one that has expired or holds no value, the key
/// is routed afresh: a miss where no rule matches or the rule names no
/// source, else a new task to fetch for.
pub open spec fn resolved(
    found: Option<MonitorTaskView>,
    key: Seq<char>,
    rules: Seq<crate::router::Rule>,
    sources: Sources,
    with_target: bool,
    now: Instant,
) -> LookupView {
    if found is Some && has_value(found->0) && poll_spec(found->0, now) is Wait {
        LookupView::Hit(found->0.last_response->0.value->0)
    } else if found is Some && has_value(found->0) && poll_spec(found->0, now) is Refresh {
        LookupView::Fetch(MonitorTaskView { last_touch: now, ..found->0 })
    } else {
        match routed(key, rules, sources, with_target, now) {
            Some(task) => LookupView::Fetch(task),
            None => LookupView::Miss,
        }
    }
}

/// A value that the engine hands out without fetching was produced no
/// longer ago than half its time to live, by a task that has not expired.
pub proof fn lemma_refresh_bound(
    found: Option<MonitorTaskView>,
    key: Seq<char>,
    rules: Seq<crate::router::Rule>,
    sources: Sources,
    with_target: bool,
    now: Instant,
)
    requires
        resolved(found, key, rules, sources, with_target, now) is Hit,
    ensures
        found is Some,
        found->0.last_response is Some,
        resolved(found, key, rules, sources, with_target, now) == LookupView::Hit(
            found->0.last_response->0.value->0,
        ),
        now.nanos() <= found->0.last_response->0.updated_at.nanos()
            + found->0.last_response->0.ttl.total_nanos() / 2,
        now.nanos() <= found->0.last_response->0.updated_at.nanos()
            + found->0.last_response->0.ttl.total_nanos(),
        !expired(found->0.last_touch, found->0.last_response->0, now),
{
}

/// `Cache::builder`, `max_capacity` and `weigher` make a cache that is
/// bounded by the weights of its tasks.
#[verifier::external_body]
fn new_cache(max_bytes: u64) -> Cache<String, MonitorTask> {
    Cache::builder().max_capacity(max_bytes).weigher(
        |_key: &String, task: &MonitorTask| task.estimated_size(),
    ).build()
}

/// `Cache::get` hands out a clone of the task that the cache holds for the
/// key at this moment, if it holds one.
#[verifier::external_body]
fn cache_get(cache: &Cache<String, MonitorTask>, key: &str) -> Option<MonitorTask> {
    cache.get(key)
}

/// `Cache::insert` stores the task under the key; the cache may evict it
/// or others to keep its bound.
#[verifier::external_body]
fn cache_insert(cache: &Cache<String, MonitorTask>, key: String, task: MonitorTask) {
    cache.insert(key, task)
}

/// `Cache::run_pending_tasks` does the evictions that are due.
#[verifier::external_body]
fn cache_run_pending_tasks(cache: &Cache<String, MonitorTask>) {
    cache.run_pending_tasks()
}

/// `Cache::clone` makes another handle to the same cache.
#[verifier::external_body]
fn cache_handle(cache: &Cache<String, MonitorTask>) -> Cache<String, MonitorTask> {
    cache.clone()
}

/// The engine: the tasks by key, in a cache bounded by weight.
pub struct MonitorTasks {
    tasks: Cache<String, MonitorTask>,
    max_bytes: u64,
}

impl Clone for MonitorTasks {
    /// Another handle to the same engine.
    fn clone(&self) -> (m: Self)
        ensures
            m.limit() == self.limit(),
    {
        Self { tasks: cache_handle(&self.tasks), max_bytes: self.max_bytes }
    }
}

impl MonitorTasks {
    /// The bound on the sum of the weights of the tasks.
    pub closed spec fn limit(&self) -> u64 {
        self.max_bytes
    }

    /// An engine bounded by 100 MiB.
    pub fn new() -> (m: Self)
        ensures
            m.limit() == DEFAULT_MAX_BYTES,
    {
        Self::with_max_bytes(DEFAULT_MAX_BYTES)
    }

    /// An engine bounded by `max_bytes`.
    pub fn with_max_bytes(max_bytes: u64) -> (m: Self)
        ensures
            m.limit() == max_bytes,
    {
        Self { tasks: new_cache(max_bytes), max_bytes }
    }

    pub fn max_bytes(&self) -> (n: u64)
        ensures
            n == self.limit(),
    {
        self.max_bytes
    }

    /// Decides what to do for `key` at `now`, given the task that the cache
    /// held for it. Of a hit, the task is kept, touched at `now`.
    pub fn resolve(
        found: Option<MonitorTask>,
        key: &str,
        router: &Router,
        sources: &Arc<Sources>,
        with_target: bool,
        now: Instant,
    ) -> (r: Resolution)
        ensures
            r.outcome@ == resolved(
                found_view(found),
                key@,
                router.rules(),
                **sources,
                with_target,
                now,
            ),
            match r.keep {
                Some(task) => r.outcome is Hit && found is Some && task@ == (MonitorTaskView {
                    last_touch: now,
                    ..found->0@
                }),
                None => !(r.outcome is Hit),
            },
    {
        match found {
            Some(task) => {
                let mut task = task;
                let action = task.poll(now);
                match task.last_result() {
                    Some(value) => {
                        match action {
                            PollAction::Wait(_) => {
                                task.touch(now);
                                return Resolution { outcome: Lookup::Hit(value), keep: Some(task) };
                            },
                            PollAction::Refresh => {
                                task.touch(now);
                                return Resolution { outcome: Lookup::Fetch(task), keep: None };
                            },
                            PollAction::Expired => {},
                        }
                    },
                    None => {},
                }
            },
            None => {},
        }
        match router.rule(key) {
            Some((request, rule)) => {
                if sources.get(rule.source().as_str()).is_some() {
                    let task = MonitorTask::new(
                        share(sources),
                        rule.source().as_str(),
                        request,
                        now,
                    );
                    let task = if with_target {
                        task.with_target()
                    } else {
                        task
                    };
                    Resolution { outcome: Lookup::Fetch(task), keep: None }
                } else {
                    Resolution { outcome: Lookup::Miss, keep: None }
                }
            },
            None => Resolution { outcome: Lookup::Miss, keep: None },
        }
    }

    /// Asks the engine for `key` at `now`. Whatever the cache holds for
    /// the key, the outcome is the one that `resolved` gives for it; the
    /// task of a hit is put back into the cache, touched.
    pub fn get_or_create_task(
        &self,
        key: &str,
        router: &Router,
        sources: &Arc<Sources>,
        with_target: bool,
        now: Instant,
    ) -> (r: Lookup)
        ensures
            exists|found: Option<MonitorTaskView>|
                r@ == #[trigger] resolved(found, key@, router.rules(), **sources, with_target, now),
    {
        let found = cache_get(&self.tasks, key);
        let ghost seen = found_view(found);
        let resolution = Self::resolve(found, key, router, sources, with_target, now);
        assert(resolution.outcome@ == resolved(
            seen,
            key@,
            router.rules(),
            **sources,
            with_target,
            now,
        ));
        match resolution.keep {
            Some(task) => cache_insert(&self.tasks, key.to_owned(), task),
            None => {},
        }
        resolution.outcome
    }

    /// Stores `task`, which has been fetched for, under `key`.
    pub fn store(&self, key: &str, task: MonitorTask) {
        cache_insert(&self.tasks, key.to_owned(), task)
    }

    /// Lets the cache do the evictions that are due.
    pub fn tick(&self) {
        cache_run_pending_tasks(&self.tasks)
    }
}

} // verus!
