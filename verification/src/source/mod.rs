//! Sources: the producers of values, and the registry that names them.

pub mod aws_secrets_manager;
pub mod echo;
pub mod file;
pub mod http;
pub mod merge;

pub use aws_secrets_manager::AwsSecretsManager;
pub use echo::Echo;
pub use file::File;
pub use http::Http;
pub use merge::Merge;

use crate::request::Request;
use crate::response::{MonitorConfig, Response, ResponseView};
use crate::source::aws_secrets_manager::{secret_value, Secret};
use crate::source::file::answer;
use crate::source::http::{parsed_url, HttpCall};
use crate::source::merge::{answer_views, asked, json_object_text, merged, Answer, Child};
use crate::template::replaced;
use crate::time::{Duration, Instant};
use vstd::prelude::*;
use vstd::string::*;

verus! {

/// A producer of values.
#[derive(Debug, Clone)]
pub enum Source {
    Echo(Echo),
    File(File),
    Http(Http),
    AwsSecretsManager(AwsSecretsManager),
    Merge(Merge),
}

/// The sources by name.
#[derive(Debug)]
pub struct Sources {
    entries: Vec<(String, Source)>,
}

/// The source of the first of `entries` that is named `name`.
pub open spec fn lookup(entries: Seq<(String, Source)>, name: Seq<char>) -> Option<Source>
    decreases entries.len(),
{
    if entries.len() == 0 {
        None
    } else if entries[0].0@ == name {
        Some(entries[0].1)
    } else {
        lookup(entries.drop_first(), name)
    }
}

impl View for Sources {
    type V = Map<Seq<char>, Source>;

    closed spec fn view(&self) -> Map<Seq<char>, Source> {
        Map::new(
            |name: Seq<char>| lookup(self.entries@, name) is Some,
            |name: Seq<char>| lookup(self.entries@, name)->0,
        )
    }
}

proof fn lemma_lookup_skip(entries: Seq<(String, Source)>, name: Seq<char>, i: int)
    requires
        0 <= i <= entries.len(),
        forall|k: int| 0 <= k < i ==> (#[trigger] entries[k]).0@ != name,
    ensures
        lookup(entries, name) == lookup(entries.skip(i), name),
    decreases i,
{
    if i > 0 {
        lemma_lookup_skip(entries.drop_first(), name, i - 1);
        assert(entries.drop_first().skip(i - 1) == entries.skip(i));
    } else {
        assert(entries.skip(0) == entries);
    }
}

proof fn lemma_lookup_update(
    entries: Seq<(String, Source)>,
    i: int,
    entry: (String, Source),
    name: Seq<char>,
)
    requires
        0 <= i < entries.len(),
        entries[i].0@ == entry.0@,
        forall|k: int| 0 <= k < i ==> (#[trigger] entries[k]).0@ != entry.0@,
    ensures
        lookup(entries.update(i, entry), name) == if name == entry.0@ {
            Some(entry.1)
        } else {
            lookup(entries, name)
        },
    decreases i,
{
    let after = entries.update(i, entry);
    if i == 0 {
        assert(after.drop_first() == entries.drop_first());
    } else {
        assert(after[0] == entries[0]);
        assert(after.drop_first() == entries.drop_first().update(i - 1, entry));
        lemma_lookup_update(entries.drop_first(), i - 1, entry, name);
    }
}

proof fn lemma_lookup_push(
    entries: Seq<(String, Source)>,
    entry: (String, Source),
    name: Seq<char>,
)
    requires
        forall|k: int| 0 <= k < entries.len() ==> (#[trigger] entries[k]).0@ != entry.0@,
    ensures
        lookup(entries.push(entry), name) == if name == entry.0@ {
            Some(entry.1)
        } else {
            lookup(entries, name)
        },
    decreases entries.len(),
{
    let after = entries.push(entry);
    if entries.len() == 0 {
        assert(after.drop_first() == entries);
    } else {
        assert(after[0] == entries[0]);
        assert(after.drop_first() == entries.drop_first().push(entry));
        lemma_lookup_push(entries.drop_first(), entry, name);
    }
}

impl Sources {
    /// The empty registry.
    pub fn new() -> (r: Self)
        ensures
            r@ == Map::<Seq<char>, Source>::empty(),
    {
        let r = Sources { entries: Vec::new() };
        assert(r@ =~= Map::<Seq<char>, Source>::empty());
        r
    }

    fn find(&self, name: &str) -> (r: Option<usize>)
        ensures
            match r {
                Some(i) => i < self.entries@.len() && self.entries@[i as int].0@ == name@
                    && forall|k: int| 0 <= k < i ==> (#[trigger] self.entries@[k]).0@ != name@,
                None => forall|k: int|
                    0 <= k < self.entries@.len() ==> (#[trigger] self.entries@[k]).0@ != name@,
            },
    {
        let mut i: usize = 0;
        while i < self.entries.len()
            invariant
                i <= self.entries.len(),
                forall|k: int| 0 <= k < i ==> (#[trigger] self.entries@[k]).0@ != name@,
            decreases self.entries.len() - i,
        {
            if crate::captures::str_equal(self.entries[i].0.as_str(), name) {
                return Some(i);
            }
            i += 1;
        }
        None
    }

    /// The source named `name`.
    pub fn get(&self, name: &str) -> (r: Option<&Source>)
        ensures
            match r {
                Some(source) => self@.contains_key(name@) && self@[name@] == *source,
                None => !self@.contains_key(name@),
            },
    {
        match self.find(name) {
            Some(i) => {
                proof {
                    lemma_lookup_skip(self.entries@, name@, i as int);
                }
                Some(&self.entries[i].1)
            },
            None => {
                proof {
                    lemma_lookup_skip(self.entries@, name@, self.entries@.len() as int);
                }
                None
            },
        }
    }

    /// Names `source` `name`, in place of any source that had the name.
    pub fn insert(&mut self, name: String, source: Source)
        ensures
            final(self)@ == old(self)@.insert(name@, source),
    {
        let ghost before = self.entries@;
        let ghost entry = (name, source);
        match self.find(name.as_str()) {
            Some(i) => {
                self.entries.set(i, (name, source));
                proof {
                    assert(self.entries@ == before.update(i as int, entry));
                    assert forall|n: Seq<char>| lookup(self.entries@, n) == if n == entry.0@ {
                        Some(entry.1)
                    } else {
                        lookup(before, n)
                    } by {
                        lemma_lookup_update(before, i as int, entry, n);
                    }
                    assert(final(self)@ =~= old(self)@.insert(entry.0@, entry.1));
                }
            },
            None => {
                self.entries.push((name, source));
                proof {
                    assert forall|n: Seq<char>| lookup(self.entries@, n) == if n == entry.0@ {
                        Some(entry.1)
                    } else {
                        lookup(before, n)
                    } by {
                        lemma_lookup_push(before, entry, n);
                    }
                    assert(final(self)@ =~= old(self)@.insert(entry.0@, entry.1));
                }
            },
        }
    }
}

/// What has to be done outside to answer a request.
#[derive(Debug)]
pub enum Fetch {
    /// Nothing: this is the answer.
    Ready(Response),
    /// Read the file at this path.
    ReadFile(String),
    /// Send this request.
    Http(HttpCall),
    /// Fetch the secret with this identifier through the pool of this
    /// name, or the default pool.
    Secret { secret_id: String, pool: Option<String> },
    /// Ask these sources.
    Merge(Vec<Child>),
}

/// What the outside work gave.
#[derive(Debug)]
pub enum Fetched {
    /// The contents of the file, if it could be read.
    File(Option<String>),
    /// The body of the response, if there was one.
    Http(Option<String>),
    /// What the secret store gave.
    Secret(Secret),
    /// What the sources answered, in the order they were asked.
    Merge(Vec<Answer>),
}

impl Source {
    /// The times that this source stamps its answers with.
    pub open spec fn config(&self) -> MonitorConfig {
        match self {
            Source::Echo(s) => s.monitor_config,
            Source::File(s) => s.monitor_config,
            Source::Http(s) => s.monitor_config,
            Source::AwsSecretsManager(s) => s.monitor_config,
            Source::Merge(s) => s.monitor_config,
        }
    }

    /// The times that this source stamps its answers with.
    pub fn monitor_config(&self) -> (c: MonitorConfig)
        ensures
            c == self.config(),
    {
        match self {
            Source::Echo(s) => s.monitor_config,
            Source::File(s) => s.monitor_config,
            Source::Http(s) => s.monitor_config,
            Source::AwsSecretsManager(s) => s.monitor_config,
            Source::Merge(s) => s.monitor_config,
        }
    }

    /// What has to be done to answer `request`. An echo answers at once.
    /// A file source asks for its file, a secret source for its secret.
    /// An HTTP source asks for its request, and answers at once without a
    /// value where its template gives no URL. A merge asks its sources.
    pub fn plan(&self, request: &Request, now: Instant) -> (f: Fetch)
        ensures
            match (*self, f) {
                (Source::Echo(s), Fetch::Ready(r)) => r@ == answer(
                    s.monitor_config,
                    Some(replaced(s.template@, request@.captures)),
                    now,
                ),
                (Source::File(s), Fetch::ReadFile(path)) => path@ == replaced(
                    s.path_template@,
                    request@.captures,
                ),
                (Source::Http(s), Fetch::Http(call)) => {
                    &&& parsed_url(replaced(s.url_template@, request@.captures)) == Some(call.url@)
                    &&& call.method@ == s.method@
                    &&& call.headers@ == s.headers@
                    &&& call.timeout == s.timeout
                },
                (Source::Http(s), Fetch::Ready(r)) => {
                    &&& parsed_url(replaced(s.url_template@, request@.captures)) is None
                    &&& r@ == answer(s.monitor_config, None, now)
                },
                (Source::AwsSecretsManager(s), Fetch::Secret { secret_id, pool }) => {
                    &&& secret_id@ == replaced(s.secret_id_template@, request@.captures)
                    &&& match (pool, s.pool) {
                        (Some(a), Some(b)) => a@ == b@,
                        (None, None) => true,
                        _ => false,
                    }
                },
                (Source::Merge(s), Fetch::Merge(children)) => asked(children@, s.rules@, request@),
                _ => false,
            },
    {
        match self {
            Source::Echo(s) => Fetch::Ready(s.call(request, now)),
            Source::File(s) => Fetch::ReadFile(s.build_path(request)),
            Source::Http(s) => match s.call_for(request) {
                Some(call) => Fetch::Http(call),
                None => Fetch::Ready(s.respond(None, now)),
            },
            Source::AwsSecretsManager(s) => Fetch::Secret {
                secret_id: s.build_secret_id(request),
                pool: match &s.pool {
                    Some(name) => Some(name.clone()),
                    None => None,
                },
            },
            Source::Merge(s) => Fetch::Merge(s.children(request)),
        }
    }

    /// The answer that `fetched` makes for this source.
    pub open spec fn completed(
        &self,
        request: crate::request::RequestView,
        fetched: Fetched,
        now: Instant,
    ) -> ResponseView {
        match (*self, fetched) {
            (Source::Echo(s), _) => answer(
                s.monitor_config,
                Some(replaced(s.template@, request.captures)),
                now,
            ),
            (Source::File(s), Fetched::File(Some(contents))) => answer(
                s.monitor_config,
                Some(contents@),
                now,
            ),
            (Source::Http(s), Fetched::Http(Some(body))) => answer(
                s.monitor_config,
                Some(body@),
                now,
            ),
            (Source::AwsSecretsManager(s), Fetched::Secret(secret)) => answer(
                s.monitor_config,
                secret_value(secret),
                now,
            ),
            (Source::Merge(s), Fetched::Merge(answers)) => answer(
                s.monitor_config,
                if request.sources is Some {
                    Some(json_object_text(merged(answer_views(answers@))))
                } else {
                    None
                },
                now,
            ),
            _ => answer(self.config(), None, now),
        }
    }

    /// The answer of this source to `request`, once the outside work that
    /// `plan` asked for has given `fetched`. Work of another kind than the
    /// source asks for gives an answer without a value.
    pub fn complete(&self, request: &Request, fetched: Fetched, now: Instant) -> (r: Response)
        ensures
            r@ == self.completed(request@, fetched, now),
    {
        match self {
            Source::Echo(s) => s.call(request, now),
            Source::File(s) => match fetched {
                Fetched::File(contents) => s.respond(contents, now),
                _ => s.respond(None, now),
            },
            Source::Http(s) => match fetched {
                Fetched::Http(body) => s.respond(body, now),
                _ => s.respond(None, now),
            },
            Source::AwsSecretsManager(s) => match fetched {
                Fetched::Secret(secret) => s.respond(secret, now),
                _ => s.respond(Secret::Failed, now),
            },
            Source::Merge(s) => match fetched {
                Fetched::Merge(answers) => s.respond(request.sources().is_some(), &answers, now),
                _ => s.respond(false, &Vec::new(), now),
            },
        }
    }
}

/// A source made of a function from a key to a value.
pub struct FnGetter<F> {
    pub func: F,
    pub ttl: Duration,
    pub expiry: Duration,
}

impl<F> FnGetter<F> {
    /// A source that asks `func`, with five seconds to live and thirty to
    /// expiry.
    pub fn new(func: F) -> (g: Self)
        ensures
            g.func == func,
            g.ttl.total_nanos() == 5_000_000_000,
            g.expiry.total_nanos() == 30_000_000_000,
    {
        Self { func, ttl: Duration::from_secs(5), expiry: Duration::from_secs(30) }
    }

    pub fn with_ttl(self, ttl: Duration) -> (g: Self)
        ensures
            g.func == self.func,
            g.ttl == ttl,
            g.expiry == self.expiry,
    {
        Self { func: self.func, ttl, expiry: self.expiry }
    }

    pub fn with_expiry(self, expiry: Duration) -> (g: Self)
        ensures
            g.func == self.func,
            g.ttl == self.ttl,
            g.expiry == expiry,
    {
        Self { func: self.func, ttl: self.ttl, expiry }
    }

    pub fn with_box(self) -> (b: Box<Self>)
        ensures
            *b == self,
    {
        Box::new(self)
    }
}

impl<F: Fn(String) -> Option<String>> FnGetter<F> {
    /// The answer of the function to the key of `request`, stamped with
    /// the times of this source.
    pub fn call(&self, request: &Request, now: Instant) -> (r: Response)
        requires
            forall|key: String| call_requires(self.func, (key,)),
        ensures
            exists|key: String, value: Option<String>|
                key@ == request@.key && call_ensures(self.func, (key,), value) && r@ == (
                ResponseView {
                    ttl: self.ttl,
                    expiry: self.expiry,
                    value: match value {
                        Some(v) => Some(v@),
                        None => None,
                    },
                    updated_at: now,
                }),
    {
        let config = MonitorConfig::new(self.ttl, self.expiry);
        let key = request.key().to_owned();
        let value = (self.func)(key);
        crate::source::file::stamp(&config, value, now)
    }
}

/// A source made of a function.
pub fn source<F>(func: F) -> (g: FnGetter<F>)
    ensures
        g.func == func,
        g.ttl.total_nanos() == 5_000_000_000,
        g.expiry.total_nanos() == 30_000_000_000,
{
    FnGetter::new(func)
}

} // verus!
