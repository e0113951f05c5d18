//! The handler: from a parsed command and the values of its keys to the
//! response.

use crate::monitor::{resolved, Lookup, MonitorTaskView, MonitorTasks};
use crate::protocol::{
    item_views, stat_views, string_views, Command, CommandView, Item, ItemView, Response, ResponseView,
};
use crate::router::Router;
use crate::source::Sources;
use crate::time::Instant;
use crate::{Error, ErrorView};
use std::sync::Arc;
use vstd::prelude::*;
use vstd::string::*;
use vstd::utf8::encode_utf8;

verus! {

/// The number that stands in for a CAS value where one is asked for.
pub const CAS_PLACEHOLDER: u64 = 12345;

pub struct Service {
    router: Option<Arc<Router>>,
    sources: Arc<Sources>,
    monitor_tasks: MonitorTasks,
    target: Option<String>,
    version: String,
}

/// The value found for the key at place `i`, if one was found.
pub open spec fn value_at(values: Seq<Option<Seq<char>>>, i: int) -> Option<Seq<char>> {
    if 0 <= i < values.len() {
        values[i]
    } else {
        None
    }
}

/// The item that carries `value` for `key`.
pub open spec fn item_for(
    key: Seq<char>,
    value: Seq<char>,
    exptime: u32,
    cas: Option<u64>,
) -> ItemView {
    ItemView { key, flags: 0, exptime, data: encode_utf8(value), cas }
}

/// The items for the first `n` keys: one for each key that has a value,
/// in the order of the keys.
pub open spec fn items_for(
    keys: Seq<Seq<char>>,
    values: Seq<Option<Seq<char>>>,
    exptime: u32,
    cas: Option<u64>,
    n: int,
) -> Seq<ItemView>
    decreases n,
{
    if n <= 0 {
        Seq::empty()
    } else {
        let before = items_for(keys, values, exptime, cas, n - 1);
        match value_at(values, n - 1) {
            Some(value) => before.push(item_for(keys[n - 1], value, exptime, cas)),
            None => before,
        }
    }
}

/// The statistics that are reported.
pub open spec fn stats_table() -> Seq<(Seq<char>, Seq<char>)> {
    seq![
        ("version"@, "0.1.0"@),
        ("curr_connections"@, "1"@),
        ("total_connections"@, "1"@),
        ("cmd_get"@, "0"@),
        ("cmd_set"@, "0"@),
    ]
}

/// The response to `command`, given the values found for its keys, in the
/// order of the keys.
pub open spec fn response_to(
    command: CommandView,
    values: Seq<Option<Seq<char>>>,
    version: Seq<char>,
) -> ResponseView {
    match command {
        CommandView::Get(keys) => ResponseView::Values(
            items_for(keys, values, 0, None, keys.len() as int),
        ),
        CommandView::Gets(keys) => ResponseView::Values(
            items_for(keys, values, 0, Some(CAS_PLACEHOLDER), keys.len() as int),
        ),
        CommandView::Gat(exptime, keys) => ResponseView::Values(
            items_for(keys, values, exptime, None, keys.len() as int),
        ),
        CommandView::Gats(exptime, keys) => ResponseView::Values(
            items_for(keys, values, exptime, Some(CAS_PLACEHOLDER), keys.len() as int),
        ),
        CommandView::MetaGet(key, flags) => match value_at(values, 0) {
            Some(value) => ResponseView::MetaValue(
                item_for(key, value, 0, Some(CAS_PLACEHOLDER)),
                flags,
            ),
            None => ResponseView::MetaEnd,
        },
        CommandView::MetaNoOp => ResponseView::MetaNoOp,
        CommandView::Version => ResponseView::Version(version),
        CommandView::Stats(_) => ResponseView::Stats(stats_table()),
        CommandView::Touch(_, _) => ResponseView::Touched,
        CommandView::Quit => ResponseView::Error("Connection should close"@),
    }
}

/// The keys whose values a command asks for.
pub open spec fn keys_of(command: CommandView) -> Seq<Seq<char>> {
    match command {
        CommandView::Get(keys) => keys,
        CommandView::Gets(keys) => keys,
        CommandView::Gat(_, keys) => keys,
        CommandView::Gats(_, keys) => keys,
        CommandView::MetaGet(key, _) => seq![key],
        _ => Seq::empty(),
    }
}

/// The values, by their contents.
pub open spec fn value_views(values: Seq<Option<String>>) -> Seq<Option<Seq<char>>> {
    values.map_values(
        |v: Option<String>|
            match v {
                Some(s) => Some(s@),
                None => None,
            },
    )
}

fn items(keys: &Vec<String>, values: &Vec<Option<String>>, exptime: u32, cas: Option<u64>) -> (out:
    Vec<Item>)
    ensures
        item_views(out@) == items_for(
            string_views(keys@),
            value_views(values@),
            exptime,
            cas,
            keys@.len() as int,
        ),
{
    let mut out: Vec<Item> = Vec::new();
    let mut i: usize = 0;
    assert(item_views(out@) =~= Seq::<ItemView>::empty());
    while i < keys.len()
        invariant
            i <= keys.len(),
            item_views(out@) == items_for(
                string_views(keys@),
                value_views(values@),
                exptime,
                cas,
                i as int,
            ),
        decreases keys.len() - i,
    {
        if i < values.len() {
            match &values[i] {
                Some(value) => {
                    let item = Item {
                        key: keys[i].clone(),
                        flags: 0,
                        exptime,
                        data: vstd::slice::slice_to_vec(value.as_str().as_bytes()),
                        cas,
                    };
                    assert(item_views(out@.push(item)) == item_views(out@).push(item@));
                    out.push(item);
                },
                None => {},
            }
        }
        i += 1;
    }
    out
}

fn pair(name: &str, value: &str) -> (p: (String, String))
    ensures
        p.0@ == name@,
        p.1@ == value@,
{
    (String::from_str(name), String::from_str(value))
}

impl Service {
    /// The version that the service reports.
    pub closed spec fn version_text(&self) -> Seq<char> {
        self.version@
    }

    /// Whether a router has been set.
    pub closed spec fn has_router(&self) -> bool {
        self.router is Some
    }

    /// The rules of the router, where one has been set.
    pub closed spec fn rules(&self) -> Seq<crate::router::Rule> {
        self.router->0.rules()
    }

    /// The registry of sources.
    pub closed spec fn registry(&self) -> Sources {
        *self.sources
    }

    /// Whether values are written back to a warm tier.
    pub closed spec fn writes_back(&self) -> bool {
        self.target is Some
    }

    /// The address of the warm tier, where values are written back.
    pub closed spec fn warm_tier(&self) -> Option<Seq<char>> {
        match self.target {
            Some(address) => Some(address@),
            None => None,
        }
    }

    /// The engine that holds the tasks.
    pub closed spec fn engine(&self) -> MonitorTasks {
        self.monitor_tasks
    }

    /// A service without router, sources or target, with version `0.0.0`
    /// and an engine bounded by 100 MiB.
    pub fn new() -> (s: Self)
        ensures
            !s.has_router(),
            !s.writes_back(),
            s.version_text() == "0.0.0"@,
            s.registry()@ == Map::<Seq<char>, crate::source::Source>::empty(),
            s.engine().limit() == crate::monitor::DEFAULT_MAX_BYTES,
    {
        Self::with_monitor_tasks(MonitorTasks::new())
    }

    /// A service like a new one with `monitor_tasks` as its engine.
    pub fn with_monitor_tasks(monitor_tasks: MonitorTasks) -> (s: Self)
        ensures
            !s.has_router(),
            !s.writes_back(),
            s.version_text() == "0.0.0"@,
            s.registry()@ == Map::<Seq<char>, crate::source::Source>::empty(),
            s.engine() == monitor_tasks,
    {
        Self {
            router: None,
            sources: Arc::new(Sources::new()),
            monitor_tasks,
            target: None,
            version: String::from_str("0.0.0"),
        }
    }

    pub fn router(self, router: Router) -> (s: Self)
        ensures
            s.has_router(),
            s.rules() == router.rules(),
            s.registry() == self.registry(),
            s.writes_back() == self.writes_back(),
            s.warm_tier() == self.warm_tier(),
            s.version_text() == self.version_text(),
            s.engine() == self.engine(),
    {
        Self {
            router: Some(Arc::new(router)),
            sources: self.sources,
            monitor_tasks: self.monitor_tasks,
            target: self.target,
            version: self.version,
        }
    }

    pub fn with_sources(self, sources: Sources) -> (s: Self)
        ensures
            s.registry() == sources,
            s.has_router() == self.has_router(),
            s.has_router() ==> s.rules() == self.rules(),
            s.writes_back() == self.writes_back(),
            s.warm_tier() == self.warm_tier(),
            s.version_text() == self.version_text(),
            s.engine() == self.engine(),
    {
        Self {
            router: self.router,
            sources: Arc::new(sources),
            monitor_tasks: self.monitor_tasks,
            target: self.target,
            version: self.version,
        }
    }

    /// The service with values written back to the warm tier at
    /// `target_address`.
    pub fn target(self, target_address: &str) -> (s: Self)
        ensures
            s.writes_back(),
            s.warm_tier() == Some(target_address@),
            s.engine() == self.engine(),
            s.registry() == self.registry(),
            s.has_router() == self.has_router(),
            s.has_router() ==> s.rules() == self.rules(),
            s.version_text() == self.version_text(),
    {
        Self {
            router: self.router,
            sources: self.sources,
            monitor_tasks: self.monitor_tasks,
            target: Some(target_address.to_owned()),
            version: self.version,
        }
    }

    pub fn version(self, version: &str) -> (s: Self)
        ensures
            s.version_text() == version@,
            s.registry() == self.registry(),
            s.has_router() == self.has_router(),
            s.has_router() ==> s.rules() == self.rules(),
            s.writes_back() == self.writes_back(),
            s.warm_tier() == self.warm_tier(),
            s.engine() == self.engine(),
    {
        Self {
            router: self.router,
            sources: self.sources,
            monitor_tasks: self.monitor_tasks,
            target: self.target,
            version: version.to_owned(),
        }
    }

    /// The address of the warm tier, if values are written back.
    pub fn target_address(&self) -> (t: Option<&String>)
        ensures
            t is Some == self.writes_back(),
            match t {
                Some(address) => self.warm_tier() == Some(address@),
                None => self.warm_tier() is None,
            },
    {
        match &self.target {
            Some(t) => Some(t),
            None => None,
        }
    }

    /// The engine that holds the tasks.
    pub fn monitor_tasks(&self) -> (m: &MonitorTasks)
        ensures
            *m == self.engine(),
    {
        &self.monitor_tasks
    }

    pub fn sources(&self) -> (s: &Arc<Sources>)
        ensures
            **s == self.registry(),
    {
        &self.sources
    }

    /// Lets the engine do the evictions that are due.
    pub fn tick(&self) {
        self.monitor_tasks.tick()
    }

    /// The keys whose values `command` asks for, in the order the values
    /// are wanted.
    pub fn keys(command: &Command) -> (keys: Vec<String>)
        ensures
            string_views(keys@) == keys_of(command@),
    {
        match command {
            Command::Get(keys) | Command::Gets(keys) | Command::Gat(_, keys) | Command::Gats(
                _,
                keys,
            ) => {
                let mut out: Vec<String> = Vec::new();
                let mut i: usize = 0;
                while i < keys.len()
                    invariant
                        i <= keys.len(),
                        string_views(out@) == string_views(keys@).take(i as int),
                    decreases keys.len() - i,
                {
                    let key = keys[i].clone();
                    assert(string_views(out@.push(key)) == string_views(out@).push(key@));
                    assert(string_views(keys@).take(i + 1) == string_views(keys@).take(
                        i as int,
                    ).push(keys@[i as int]@));
                    out.push(key);
                    i += 1;
                }
                assert(string_views(keys@).take(keys.len() as int) == string_views(keys@));
                out
            },
            Command::MetaGet(key, _) => {
                let mut out: Vec<String> = Vec::new();
                let key = key.clone();
                assert(string_views(out@.push(key)) == string_views(out@).push(key@));
                out.push(key);
                out
            },
            _ => {
                let out: Vec<String> = Vec::new();
                assert(string_views(out@) == Seq::<Seq<char>>::empty());
                out
            },
        }
    }

    /// Asks the engine for `key` at `now`.
    pub fn lookup(&self, key: &str, now: Instant) -> (r: Result<Lookup, Error>)
        ensures
            match r {
                Ok(lookup) => self.has_router() && exists|found: Option<MonitorTaskView>|
                    lookup@ == #[trigger] resolved(
                        found,
                        key@,
                        self.rules(),
                        self.registry(),
                        self.writes_back(),
                        now,
                    ),
                Err(e) => !self.has_router() && e@ == ErrorView::Other(
                    "No getter function configured"@,
                ),
            },
    {
        match &self.router {
            Some(router) => {
                let lookup = self.monitor_tasks.get_or_create_task(
                    key,
                    router,
                    &self.sources,
                    self.target.is_some(),
                    now,
                );
                proof {
                    let found = choose|found: Option<MonitorTaskView>|
                        lookup@ == #[trigger] resolved(
                            found,
                            key@,
                            router.rules(),
                            *self.sources,
                            self.target is Some,
                            now,
                        );
                    assert(lookup@ == resolved(
                        found,
                        key@,
                        self.rules(),
                        self.registry(),
                        self.writes_back(),
                        now,
                    ));
                }
                Ok(lookup)
            },
            None => Err(Error::Other(String::from_str("No getter function configured"))),
        }
    }

    /// The response to `command`, given the values that were found for its
    /// keys, in the order of `keys`. Without a router there is none.
    pub fn handle_command(&self, command: Command, values: &Vec<Option<String>>) -> (r: Result<
        Response,
        Error,
    >)
        ensures
            match r {
                Ok(response) => self.has_router() && response@ == response_to(
                    command@,
                    value_views(values@),
                    self.version_text(),
                ),
                Err(e) => !self.has_router() && e@ == ErrorView::Other(
                    "No getter function configured"@,
                ),
            },
    {
        if self.router.is_none() {
            return Err(Error::Other(String::from_str("No getter function configured")));
        }
        let response = match command {
            Command::Get(keys) => Response::Values(items(&keys, values, 0, None)),
            Command::Gets(keys) => Response::Values(
                items(&keys, values, 0, Some(CAS_PLACEHOLDER)),
            ),
            Command::Gat(exptime, keys) => Response::Values(items(&keys, values, exptime, None)),
            Command::Gats(exptime, keys) => Response::Values(
                items(&keys, values, exptime, Some(CAS_PLACEHOLDER)),
            ),
            Command::MetaGet(key, flags) => {
                let found = if values.len() > 0 {
                    match &values[0] {
                        Some(value) => Some(value),
                        None => None,
                    }
                } else {
                    None
                };
                match found {
                    Some(value) => Response::MetaValue(
                        Item {
                            key,
                            flags: 0,
                            exptime: 0,
                            data: vstd::slice::slice_to_vec(value.as_str().as_bytes()),
                            cas: Some(CAS_PLACEHOLDER),
                        },
                        flags,
                    ),
                    None => Response::MetaEnd,
                }
            },
            Command::MetaNoOp => Response::MetaNoOp,
            Command::Version => Response::Version(self.version.clone()),
            Command::Stats(_) => {
                let mut stats: Vec<(String, String)> = Vec::new();
                stats.push(pair("version", "0.1.0"));
                stats.push(pair("curr_connections", "1"));
                stats.push(pair("total_connections", "1"));
                stats.push(pair("cmd_get", "0"));
                stats.push(pair("cmd_set", "0"));
                assert(stat_views(stats@) =~= stats_table());
                Response::Stats(stats)
            },
            Command::Touch(_, _) => Response::Touched,
            Command::Quit => Response::Error(String::from_str("Connection should close")),
        };
        Ok(response)
    }

    /// The response to `command` as it goes to the client: that of
    /// `handle_command`, or its error as an error response.
    pub fn call(&self, command: Command, values: &Vec<Option<String>>) -> (response: Response)
        ensures
            response@ == if self.has_router() {
                response_to(command@, value_views(values@), self.version_text())
            } else {
                ResponseView::Error("other: "@ + "No getter function configured"@)
            },
    {
        match self.handle_command(command, values) {
            Ok(response) => response,
            Err(e) => Response::Error(e.to_string()),
        }
    }
}

} // verus!
