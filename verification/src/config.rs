//! The configuration of a server: sources by name, routes in order and
//! pools by name, and the sources, router and pool builders they make.

use crate::captures::{str_equal, Captures};
use crate::chars::{chars_of, is_digit};
use crate::pool::AwsSecretsManagerPoolBuilder;
use crate::protocol::{copy_strings, string_views};
use crate::router::{check_pattern, regex_valid, Router};
use crate::source::merge::{Rule, RuleArgs};
use crate::source::{AwsSecretsManager, Echo, File, Http, Merge, Source, Sources};
use crate::time::{Duration, NANOS_PER_SEC};
use vstd::prelude::*;
use vstd::string::*;

verus! {

/// What is wrong with a configuration.
#[derive(Debug)]
pub enum ConfigError {
    /// A source names a pool that is not there.
    PoolNotFound(String),
    /// A method that is no HTTP method.
    InvalidMethod(String),
    /// A text that is no span of time, and what the parser said of it.
    InvalidDuration(String, String),
    /// A pattern that is no regular expression, and what the compiler
    /// said of it.
    InvalidPattern(String, String),
}

/// What is wrong, without the words of the parser or compiler.
pub enum ConfigErrorView {
    PoolNotFound(Seq<char>),
    InvalidMethod(Seq<char>),
    InvalidDuration(Seq<char>),
    InvalidPattern(Seq<char>),
}

impl View for ConfigError {
    type V = ConfigErrorView;

    open spec fn view(&self) -> ConfigErrorView {
        match self {
            ConfigError::PoolNotFound(name) => ConfigErrorView::PoolNotFound(name@),
            ConfigError::InvalidMethod(method) => ConfigErrorView::InvalidMethod(method@),
            ConfigError::InvalidDuration(text, _) => ConfigErrorView::InvalidDuration(text@),
            ConfigError::InvalidPattern(pattern, _) => ConfigErrorView::InvalidPattern(pattern@),
        }
    }
}

impl ConfigError {
    /// The error in words.
    pub fn to_string(&self) -> (s: String)
        ensures
            s@ == match *self {
                ConfigError::PoolNotFound(name) => "Pool '"@ + name@ + "' not found"@,
                ConfigError::InvalidMethod(method) => "Invalid HTTP method: "@ + method@,
                ConfigError::InvalidDuration(_, reason) => reason@,
                ConfigError::InvalidPattern(_, reason) => reason@,
            },
    {
        match self {
            ConfigError::PoolNotFound(name) => {
                let mut s = String::from_str("Pool '");
                s.append(name.as_str());
                s.append("' not found");
                s
            },
            ConfigError::InvalidMethod(method) => {
                let mut s = String::from_str("Invalid HTTP method: ");
                s.append(method.as_str());
                s
            },
            ConfigError::InvalidDuration(_, reason) => reason.clone(),
            ConfigError::InvalidPattern(_, reason) => reason.clone(),
        }
    }
}

//- Spans of time ---------------------------------------------------------------
/// How many of the characters of `text` are digits.
pub open spec fn digit_count(text: Seq<char>) -> nat
    decreases text.len(),
{
    if text.len() == 0 {
        0
    } else {
        digit_count(text.drop_last()) + if is_digit(text.last()) {
            1nat
        } else {
            0nat
        }
    }
}

/// The most digits that the text of a span of time may hold.
pub const MAX_DURATION_DIGITS: usize = 11;

/// The whole seconds, and the nanoseconds beyond them, of the span of time
/// that `humantime::parse_duration` reads in `text`; nothing where it
/// refuses the text.
pub uninterp spec fn humantime_duration(text: Seq<char>) -> Option<(u64, u32)>;

/// `humantime::parse_duration` reads a span of time written as numbers
/// with units, such as `5s` or `1h 30m`, or says in words why it cannot;
/// `Duration::as_secs` and `Duration::subsec_nanos` give its whole seconds
/// and the part of a second beyond them, which is under a thousand
/// million nanoseconds. The parser may overflow when the seconds it has
/// summed stand at the largest number, which takes more than eleven
/// digits to write in any of its units: such texts are kept from it.
#[verifier::external_body]
fn parse_duration(text: &str) -> (r: Result<(u64, u32), String>)
    requires
        digit_count(text@) <= MAX_DURATION_DIGITS,
    ensures
        match r {
            Ok(d) => humantime_duration(text@) == Some(d) && d.1 < NANOS_PER_SEC,
            Err(_) => humantime_duration(text@) is None,
        },
{
    match humantime::parse_duration(text) {
        Ok(d) => Ok((d.as_secs(), d.subsec_nanos())),
        Err(e) => Err(e.to_string()),
    }
}

/// The nanoseconds of the span of time that `text` stands for; nothing
/// where it holds too many digits or is no span of time.
pub open spec fn duration_of(text: Seq<char>) -> Option<nat> {
    if digit_count(text) > MAX_DURATION_DIGITS {
        None
    } else {
        match humantime_duration(text) {
            Some(d) => Some((d.0 * NANOS_PER_SEC + d.1) as nat),
            None => None,
        }
    }
}

fn count_digits(text: &str) -> (n: usize)
    ensures
        n == digit_count(text@),
{
    let chars = chars_of(text);
    let mut n: usize = 0;
    let mut i: usize = 0;
    while i < chars.len()
        invariant
            i <= chars.len(),
            n <= i,
            n == digit_count(chars@.take(i as int)),
            chars@ == text@,
        decreases chars.len() - i,
    {
        proof {
            assert(chars@.take(i + 1).drop_last() == chars@.take(i as int));
        }
        if '0' <= chars[i] && chars[i] <= '9' {
            n += 1;
        }
        i += 1;
    }
    proof {
        assert(chars@.take(i as int) == chars@);
    }
    n
}

/// Reads a span of time such as `5s`, `250ms` or `1h 30m`.
pub fn duration(text: &str) -> (r: Result<Duration, ConfigError>)
    ensures
        match r {
            Ok(d) => duration_of(text@) == Some(d.total_nanos()),
            Err(e) => duration_of(text@) is None && e@ == ConfigErrorView::InvalidDuration(
                text@,
            ),
        },
{
    if count_digits(text) > MAX_DURATION_DIGITS {
        return Err(
            ConfigError::InvalidDuration(text.to_owned(), String::from_str("number is too large")),
        );
    }
    match parse_duration(text) {
        Ok(d) => Ok(Duration::new(d.0, d.1)),
        Err(reason) => Err(ConfigError::InvalidDuration(text.to_owned(), reason)),
    }
}

/// What is wrong with the time that a configuration gives, if it gives
/// one.
pub open spec fn time_fault(text: Option<String>) -> Option<ConfigErrorView> {
    match text {
        Some(t) => if duration_of(t@) is None {
            Some(ConfigErrorView::InvalidDuration(t@))
        } else {
            None
        },
        None => None,
    }
}

/// The nanoseconds of the time that a configuration gives, or of the
/// default where it gives none.
pub open spec fn time_or(text: Option<String>, default: nat) -> nat {
    match text {
        Some(t) => duration_of(t@)->0,
        None => default,
    }
}

/// The default time to live of a value, in nanoseconds.
pub open spec fn default_ttl() -> nat {
    5_000_000_000
}

/// The default expiry of a refresh task, in nanoseconds.
pub open spec fn default_expiry() -> nat {
    30_000_000_000
}

/// Reads the time that a configuration gives, if it gives one.
fn time(text: &Option<String>) -> (r: Result<Option<Duration>, ConfigError>)
    ensures
        match r {
            Ok(Some(d)) => *text is Some && time_fault(*text) is None && d.total_nanos()
                == time_or(*text, 0),
            Ok(None) => *text is None,
            Err(e) => time_fault(*text) == Some(e@),
        },
{
    match text {
        Some(t) => match duration(t.as_str()) {
            Ok(d) => Ok(Some(d)),
            Err(e) => Err(e),
        },
        None => Ok(None),
    }
}

//- Methods ---------------------------------------------------------------------
/// Whether `c` may stand in a token of HTTP: a letter or digit of ASCII, or
/// one of the fifteen marks.
pub open spec fn is_token_char(c: char) -> bool {
    ||| 'a' <= c <= 'z'
    ||| 'A' <= c <= 'Z'
    ||| '0' <= c <= '9'
    ||| c == '!'
    ||| c == '#'
    ||| c == '$'
    ||| c == '%'
    ||| c == '&'
    ||| c == '\''
    ||| c == '*'
    ||| c == '+'
    ||| c == '-'
    ||| c == '.'
    ||| c == '^'
    ||| c == '_'
    ||| c == '`'
    ||| c == '|'
    ||| c == '~'
}

/// Whether `text` can be the method of an HTTP request: a token that is
/// not empty.
pub open spec fn is_method(text: Seq<char>) -> bool {
    text.len() > 0 && forall|i: int| 0 <= i < text.len() ==> is_token_char(#[trigger] text[i])
}

/// `Method::from_bytes` accepts the bytes of a text that is not empty and
/// holds token characters only, be it a method it knows or not.
#[verifier::external_body]
fn method_accepted(text: &str) -> (ok: bool)
    ensures
        ok == is_method(text@),
{
    reqwest::Method::from_bytes(text.as_bytes()).is_ok()
}

//- Merge -----------------------------------------------------------------------
/// What a rule of a merge hands to the source it asks.
#[derive(Debug, Clone)]
pub enum MergeRuleArgsConfig {
    Inherit,
    Replace { args: Captures },
}

/// Whether the arguments of a rule are those that a configuration gives.
pub open spec fn args_match(args: RuleArgs, config: MergeRuleArgsConfig) -> bool {
    match (args, config) {
        (RuleArgs::Inherit, MergeRuleArgsConfig::Inherit) => true,
        (RuleArgs::Replace { args: a }, MergeRuleArgsConfig::Replace { args: b }) => a@ == b@,
        _ => false,
    }
}

impl MergeRuleArgsConfig {
    pub fn to_rule_args(&self) -> (r: RuleArgs)
        ensures
            args_match(r, *self),
    {
        match self {
            MergeRuleArgsConfig::Inherit => RuleArgs::Inherit,
            MergeRuleArgsConfig::Replace { args } => RuleArgs::Replace { args: args.clone() },
        }
    }
}

/// One rule of a merge: where in the object the answer goes, which source
/// to ask, and with what.
#[derive(Debug, Clone)]
pub struct MergeRuleConfig {
    pub key: Vec<String>,
    pub source: String,
    pub args: MergeRuleArgsConfig,
}

/// Whether a rule is the one that a configuration gives.
pub open spec fn rule_matches(rule: Rule, config: MergeRuleConfig) -> bool {
    &&& string_views(rule.key@) == string_views(config.key@)
    &&& rule.source@ == config.source@
    &&& args_match(rule.args, config.args)
}

/// Whether the rules are those that a configuration gives, in its order.
pub open spec fn rules_match(rules: Seq<Rule>, configs: Seq<MergeRuleConfig>) -> bool {
    &&& rules.len() == configs.len()
    &&& forall|i: int| 0 <= i < rules.len() ==> rule_matches(#[trigger] rules[i], configs[i])
}

//- Pool ------------------------------------------------------------------------
/// A pool of connections to a store.
#[derive(Debug, Clone)]
pub enum PoolConfig {
    AwsSecretsManager {
        min_idle: Option<u32>,
        max_size: Option<u32>,
        profile: Option<String>,
        region: Option<String>,
    },
}

/// The view of a text that may be missing.
pub open spec fn text_view(text: Option<String>) -> Option<Seq<char>> {
    match text {
        Some(t) => Some(t@),
        None => None,
    }
}

/// Whether `b` builds the pool that `config` describes: with what the
/// configuration gives, and for the rest with what a new builder has.
pub open spec fn pool_built(config: PoolConfig, b: AwsSecretsManagerPoolBuilder) -> bool {
    match config {
        PoolConfig::AwsSecretsManager { min_idle, max_size, profile, region } => {
            &&& b.max_size == match max_size {
                Some(max) => max,
                None => 2u32,
            }
            &&& b.min_idle == match min_idle {
                Some(min) => Some(min),
                None => Some(0u32),
            }
            &&& text_view(b.profile) == text_view(profile)
            &&& text_view(b.region) == text_view(region)
        },
    }
}

impl PoolConfig {
    /// The builder of the pool that the configuration describes.
    pub fn builder(&self) -> (b: AwsSecretsManagerPoolBuilder)
        ensures
            pool_built(*self, b),
    {
        match self {
            PoolConfig::AwsSecretsManager { min_idle, max_size, profile, region } => {
                let mut builder = AwsSecretsManagerPoolBuilder::new();
                if let Some(max) = max_size {
                    builder = builder.with_max_size(*max);
                }
                if let Some(min) = min_idle {
                    builder = builder.with_min_idle(*min);
                }
                if let Some(prof) = profile {
                    builder = builder.with_profile(prof.as_str());
                }
                if let Some(reg) = region {
                    builder = builder.with_region(reg.as_str());
                }
                builder
            },
        }
    }
}

//- Source ----------------------------------------------------------------------
/// One source, as a configuration describes it.
#[allow(inconsistent_fields)]
#[derive(Debug, Clone)]
pub enum SourceConfig {
    AwsSecretsManager {
        secret_id: String,
        pool: Option<String>,
        ttl: Option<String>,
        expiry: Option<String>,
    },
    Echo { template: String },
    File { path: String, ttl: Option<String>, expiry: Option<String> },
    Http {
        url: String,
        method: Option<String>,
        query: Option<Captures>,
        headers: Option<Captures>,
        ttl: Option<String>,
        expiry: Option<String>,
    },
    Merge {
        format: String,
        template: Vec<MergeRuleConfig>,
        ttl: Option<String>,
        expiry: Option<String>,
    },
}

/// Whether one of `pools` is `name`.
pub open spec fn has_pool(pools: Seq<String>, name: Seq<char>) -> bool {
    exists|i: int| 0 <= i < pools.len() && (#[trigger] pools[i])@ == name
}

/// What is wrong with the times that a configuration gives: with the time
/// to live first, then with the expiry.
pub open spec fn times_fault(ttl: Option<String>, expiry: Option<String>) -> Option<
    ConfigErrorView,
> {
    if time_fault(ttl) is Some {
        time_fault(ttl)
    } else {
        time_fault(expiry)
    }
}

/// Whether the times are those that a configuration gives, and the
/// defaults where it gives none.
pub open spec fn times_match(
    times: crate::response::MonitorConfig,
    ttl: Option<String>,
    expiry: Option<String>,
) -> bool {
    &&& times.ttl().total_nanos() == time_or(ttl, default_ttl())
    &&& times.expiry().total_nanos() == time_or(expiry, default_expiry())
}

fn knows_pool(pools: &Vec<String>, name: &str) -> (r: bool)
    ensures
        r == has_pool(pools@, name@),
{
    let mut i: usize = 0;
    while i < pools.len()
        invariant
            i <= pools.len(),
            forall|k: int| 0 <= k < i ==> (#[trigger] pools@[k])@ != name@,
        decreases pools.len() - i,
    {
        if str_equal(pools[i].as_str(), name) {
            return true;
        }
        i += 1;
    }
    false
}

impl SourceConfig {
    /// The first thing that is wrong with the configuration, if anything
    /// is: a pool that is not among `pools`, a method that is none, a time
    /// that is none.
    pub open spec fn fault(&self, pools: Seq<String>) -> Option<ConfigErrorView> {
        match *self {
            SourceConfig::AwsSecretsManager { secret_id, pool, ttl, expiry } => {
                if pool is Some && !has_pool(pools, pool->0@) {
                    Some(ConfigErrorView::PoolNotFound(pool->0@))
                } else {
                    times_fault(ttl, expiry)
                }
            },
            SourceConfig::Echo { template } => None,
            SourceConfig::File { path, ttl, expiry } => times_fault(ttl, expiry),
            SourceConfig::Http { url, method, query, headers, ttl, expiry } => {
                if method is Some && !is_method(method->0@) {
                    Some(ConfigErrorView::InvalidMethod(method->0@))
                } else {
                    times_fault(ttl, expiry)
                }
            },
            SourceConfig::Merge { format, template, ttl, expiry } => times_fault(ttl, expiry),
        }
    }

    /// Whether `source` is the one that the configuration describes: of
    /// its kind, with what the configuration gives, and with the defaults
    /// of the kind for what it leaves out.
    pub open spec fn describes(&self, source: Source) -> bool {
        match (*self, source) {
            (
                SourceConfig::AwsSecretsManager { secret_id, pool, ttl, expiry },
                Source::AwsSecretsManager(a),
            ) => {
                &&& a.secret_id_template@ == secret_id@
                &&& text_view(a.pool) == text_view(pool)
                &&& times_match(a.monitor_config, ttl, expiry)
            },
            (SourceConfig::Echo { template }, Source::Echo(e)) => {
                &&& e.template@ == template@
                &&& times_match(e.monitor_config, None, None)
            },
            (SourceConfig::File { path, ttl, expiry }, Source::File(f)) => {
                &&& f.path_template@ == path@
                &&& times_match(f.monitor_config, ttl, expiry)
            },
            (
                SourceConfig::Http { url, method, query, headers, ttl, expiry },
                Source::Http(h),
            ) => {
                &&& h.url_template@ == url@
                &&& h.method@ == match method {
                    Some(m) => m@,
                    None => "GET"@,
                }
                &&& h.headers@ == match headers {
                    Some(map) => map@,
                    None => Map::<Seq<char>, Seq<char>>::empty(),
                }
                &&& h.timeout.total_nanos() == 30_000_000_000
                &&& times_match(h.monitor_config, ttl, expiry)
            },
            (SourceConfig::Merge { format, template, ttl, expiry }, Source::Merge(m)) => {
                &&& m.format@ == format@
                &&& rules_match(m.rules@, template@)
                &&& times_match(m.monitor_config, ttl, expiry)
            },
            _ => false,
        }
    }

    /// The source that the configuration describes, or the first thing
    /// that is wrong with it. `pools` are the names of the pools that
    /// there are.
    pub fn to_source(&self, pools: &Vec<String>) -> (r: Result<Source, ConfigError>)
        ensures
            match r {
                Ok(source) => self.fault(pools@) is None && self.describes(source),
                Err(e) => self.fault(pools@) == Some(e@),
            },
    {
        match self {
            SourceConfig::AwsSecretsManager { secret_id, pool, ttl, expiry } => {
                let mut source = AwsSecretsManager::new().with_secret_id(secret_id.as_str());
                if let Some(name) = pool {
                    if knows_pool(pools, name.as_str()) {
                        source = source.with_pool(name.as_str());
                    } else {
                        return Err(ConfigError::PoolNotFound(name.clone()));
                    }
                }
                if let Some(d) = time(ttl)? {
                    source = source.with_ttl(d);
                }
                if let Some(d) = time(expiry)? {
                    source = source.with_expiry(d);
                }
                Ok(Source::AwsSecretsManager(source))
            },
            SourceConfig::Echo { template } => Ok(
                Source::Echo(Echo::new().with_template(template.as_str())),
            ),
            SourceConfig::File { path, ttl, expiry } => {
                let mut file = File::new(path.as_str());
                if let Some(d) = time(ttl)? {
                    file = file.with_ttl(d);
                }
                if let Some(d) = time(expiry)? {
                    file = file.with_expiry(d);
                }
                Ok(Source::File(file))
            },
            SourceConfig::Http { url, method, query: _, headers, ttl, expiry } => {
                let mut http = Http::new(url.as_str());
                if let Some(name) = method {
                    if !method_accepted(name.as_str()) {
                        return Err(ConfigError::InvalidMethod(name.clone()));
                    }
                    http = http.with_method(name.as_str());
                }
                if let Some(map) = headers {
                    http = http.with_headers(map.clone());
                }
                if let Some(d) = time(ttl)? {
                    http = http.with_ttl(d);
                }
                if let Some(d) = time(expiry)? {
                    http = http.with_expiry(d);
                }
                Ok(Source::Http(http))
            },
            SourceConfig::Merge { format, template, ttl, expiry } => {
                let mut merge = Merge::new().with_format(format.as_str());
                let mut i: usize = 0;
                while i < template.len()
                    invariant
                        i <= template.len(),
                        merge.format@ == format@,
                        merge.monitor_config.ttl().total_nanos() == default_ttl(),
                        merge.monitor_config.expiry().total_nanos() == default_expiry(),
                        rules_match(merge.rules@, template@.take(i as int)),
                    decreases template.len() - i,
                {
                    let rule = &template[i];
                    merge = merge.with_rule(
                        copy_strings(&rule.key),
                        rule.source.clone(),
                        rule.args.to_rule_args(),
                    );
                    i += 1;
                }
                proof {
                    assert(template@.take(i as int) == template@);
                }
                if let Some(d) = time(ttl)? {
                    merge = merge.with_ttl(d);
                }
                if let Some(d) = time(expiry)? {
                    merge = merge.with_expiry(d);
                }
                Ok(Source::Merge(merge))
            },
        }
    }
}

//- Route -----------------------------------------------------------------------
/// One route: keys that match the pattern go to the source.
#[derive(Debug, Clone)]
pub struct RouteConfig {
    pub pattern: String,
    pub source: String,
}

/// Routes that belong together, in their order.
#[derive(Debug, Clone)]
pub struct RouteGroupConfig {
    pub routes: Vec<RouteConfig>,
}

/// The routes of all groups, in the order of the groups and, within each,
/// in its own.
pub open spec fn route_list(groups: Seq<(String, RouteGroupConfig)>) -> Seq<RouteConfig>
    decreases groups.len(),
{
    if groups.len() == 0 {
        Seq::empty()
    } else {
        route_list(groups.drop_last()) + groups.last().1.routes@
    }
}

/// Whether the rules of `router` are `routes`, one for one.
pub open spec fn routes_match(router: Router, routes: Seq<RouteConfig>) -> bool {
    &&& router.rules().len() == routes.len()
    &&& forall|i: int|
        0 <= i < routes.len() ==> {
            &&& (#[trigger] router.rules()[i]).pattern@ == routes[i].pattern@
            &&& router.rules()[i].source@ == routes[i].source@
        }
}

/// Whether every pattern of `routes` is one that the router accepts.
pub open spec fn routes_valid(routes: Seq<RouteConfig>) -> bool {
    forall|i: int| 0 <= i < routes.len() ==> regex_valid((#[trigger] routes[i]).pattern@)
}

//- Server ----------------------------------------------------------------------
/// The configuration of a server.
#[derive(Debug, Clone)]
pub struct ServerConfig {
    pub routes: Vec<(String, RouteGroupConfig)>,
    pub source_configs: Vec<(String, SourceConfig)>,
    pub pool_configs: Vec<(String, PoolConfig)>,
}

impl Default for ServerConfig {
    /// The configuration without routes, sources or pools.
    fn default() -> (c: Self)
        ensures
            c.routes@.len() == 0,
            c.source_configs@.len() == 0,
            c.pool_configs@.len() == 0,
    {
        Self { routes: Vec::new(), source_configs: Vec::new(), pool_configs: Vec::new() }
    }
}

/// Whether `i` is the last place in `configs` of the name that stands
/// there.
pub open spec fn is_last_of_name(configs: Seq<(String, SourceConfig)>, i: int) -> bool {
    forall|j: int| i < j < configs.len() ==> (#[trigger] configs[j]).0@ != configs[i].0@
}

/// Whether `sources` are those that `configs` describe: each name stands
/// for what the last configuration of that name describes, and no other
/// name is there.
pub open spec fn sources_match(
    sources: Map<Seq<char>, Source>,
    configs: Seq<(String, SourceConfig)>,
) -> bool {
    &&& forall|i: int|
        0 <= i < configs.len() && is_last_of_name(configs, i) ==> {
            &&& sources.contains_key((#[trigger] configs[i]).0@)
            &&& configs[i].1.describes(sources[configs[i].0@])
        }
    &&& forall|name: Seq<char>| #[trigger]
        sources.contains_key(name) ==> exists|i: int|
            0 <= i < configs.len() && (#[trigger] configs[i]).0@ == name
}

impl ServerConfig {
    /// The builders of the pools, each under the name of its pool.
    pub fn pool_builders(&self) -> (out: Vec<(String, AwsSecretsManagerPoolBuilder)>)
        ensures
            out@.len() == self.pool_configs@.len(),
            forall|i: int|
                0 <= i < out@.len() ==> {
                    &&& (#[trigger] out@[i]).0@ == self.pool_configs@[i].0@
                    &&& pool_built(self.pool_configs@[i].1, out@[i].1)
                },
    {
        let mut out: Vec<(String, AwsSecretsManagerPoolBuilder)> = Vec::new();
        let mut i: usize = 0;
        while i < self.pool_configs.len()
            invariant
                i <= self.pool_configs.len(),
                out@.len() == i,
                forall|k: int|
                    0 <= k < i ==> {
                        &&& (#[trigger] out@[k]).0@ == self.pool_configs@[k].0@
                        &&& pool_built(self.pool_configs@[k].1, out@[k].1)
                    },
            decreases self.pool_configs.len() - i,
        {
            out.push((self.pool_configs[i].0.clone(), self.pool_configs[i].1.builder()));
            i += 1;
        }
        out
    }

    /// The router of all routes, in the order of the groups and, within
    /// each, in its own; or the first pattern that is no regular
    /// expression.
    pub fn to_router(&self) -> (r: Result<Router, ConfigError>)
        ensures
            match r {
                Ok(router) => routes_valid(route_list(self.routes@)) && routes_match(
                    router,
                    route_list(self.routes@),
                ),
                Err(e) => exists|i: int|
                    {
                        &&& 0 <= i < route_list(self.routes@).len()
                        &&& routes_valid(route_list(self.routes@).take(i))
                        &&& !regex_valid((#[trigger] route_list(self.routes@)[i]).pattern@)
                        &&& e@ == ConfigErrorView::InvalidPattern(
                            route_list(self.routes@)[i].pattern@,
                        )
                    },
            },
    {
        let mut router = Router::new();
        let mut g: usize = 0;
        while g < self.routes.len()
            invariant
                g <= self.routes.len(),
                routes_valid(route_list(self.routes@.take(g as int))),
                routes_match(router, route_list(self.routes@.take(g as int))),
            decreases self.routes.len() - g,
        {
            let group = &self.routes[g].1.routes;
            let ghost before = route_list(self.routes@.take(g as int));
            proof {
                assert(self.routes@.take(g + 1).drop_last() == self.routes@.take(g as int));
                assert(route_list(self.routes@.take(g + 1)) == before + group@);
                lemma_route_list_prefix(self.routes@, g + 1);
            }
            let mut k: usize = 0;
            while k < group.len()
                invariant
                    k <= group.len(),
                    g < self.routes.len(),
                    group == &self.routes@[g as int].1.routes,
                    before == route_list(self.routes@.take(g as int)),
                    route_list(self.routes@.take(g + 1)) == before + group@,
                    (before + group@).len() <= route_list(self.routes@).len(),
                    route_list(self.routes@.take(g + 1)) == route_list(self.routes@).take(
                        (before + group@).len() as int,
                    ),
                    routes_valid(before + group@.take(k as int)),
                    routes_match(router, before + group@.take(k as int)),
                decreases group.len() - k,
            {
                let route = &group[k];
                let ghost done = before + group@.take(k as int);
                let ghost rules = router.rules();
                proof {
                    assert(before + group@.take(k + 1) == done.push(*route));
                }
                match check_pattern(route.pattern.as_str()) {
                    Ok(()) => {
                        router = router.route(route.pattern.as_str(), route.source.as_str());
                        proof {
                            assert forall|n: int| 0 <= n < done.len() implies router.rules()[n]
                                == rules[n] by {
                                assert(router.rules().drop_last()[n] == router.rules()[n]);
                            }
                            let next = done.push(*route);
                            assert forall|n: int| 0 <= n < next.len() implies {
                                &&& (#[trigger] router.rules()[n]).pattern@ == next[n].pattern@
                                &&& router.rules()[n].source@ == next[n].source@
                            } by {
                                if n < done.len() {
                                    assert(rules[n].pattern@ == done[n].pattern@);
                                    assert(next[n] == done[n]);
                                } else {
                                    assert(router.rules()[n] == router.rules().last());
                                }
                            }
                            assert(routes_valid(next)) by {
                                assert forall|n: int| 0 <= n < next.len() implies regex_valid(
                                    (#[trigger] next[n]).pattern@,
                                ) by {
                                    if n < done.len() {
                                        assert(next[n] == done[n]);
                                    }
                                }
                            }
                        }
                    },
                    Err(reason) => {
                        proof {
                            let all = route_list(self.routes@);
                            let i = done.len() as int;
                            assert((before + group@)[i] == *route);
                            assert(all.take((before + group@).len() as int)[i] == all[i]);
                            assert(all.take(i) =~= done);
                        }
                        return Err(ConfigError::InvalidPattern(route.pattern.clone(), reason));
                    },
                }
                k += 1;
            }
            proof {
                assert(group@.take(k as int) == group@);
            }
            g += 1;
        }
        proof {
            assert(self.routes@.take(g as int) == self.routes@);
        }
        Ok(router)
    }

    /// The sources that the configuration describes, by name, or the first
    /// thing that is wrong with one of them. A source may use the pools
    /// that the configuration names.
    pub fn to_sources(&self, pools: &Vec<String>) -> (r: Result<Sources, ConfigError>)
        ensures
            match r {
                Ok(sources) => {
                    &&& forall|i: int|
                        0 <= i < self.source_configs@.len() ==> (
                        #[trigger] self.source_configs@[i]).1.fault(pools@) is None
                    &&& sources_match(sources@, self.source_configs@)
                },
                Err(e) => exists|i: int|
                    {
                        &&& 0 <= i < self.source_configs@.len()
                        &&& (#[trigger] self.source_configs@[i]).1.fault(pools@) == Some(e@)
                        &&& forall|j: int|
                            0 <= j < i ==> (#[trigger] self.source_configs@[j]).1.fault(pools@)
                                is None
                    },
            },
    {
        let mut sources = Sources::new();
        let mut i: usize = 0;
        while i < self.source_configs.len()
            invariant
                i <= self.source_configs.len(),
                forall|j: int|
                    0 <= j < i ==> (#[trigger] self.source_configs@[j]).1.fault(pools@) is None,
                sources_match(sources@, self.source_configs@.take(i as int)),
            decreases self.source_configs.len() - i,
        {
            let ghost before = self.source_configs@.take(i as int);
            let ghost after = self.source_configs@.take(i + 1);
            let ghost old_sources = sources@;
            let entry = &self.source_configs[i];
            match entry.1.to_source(pools) {
                Ok(source) => {
                    sources.insert(entry.0.clone(), source);
                    proof {
                        assert(after == before.push(*entry));
                        assert forall|k: int|
                            0 <= k < after.len() && is_last_of_name(after, k) implies {
                            &&& sources@.contains_key((#[trigger] after[k]).0@)
                            &&& after[k].1.describes(sources@[after[k].0@])
                        } by {
                            if k < i {
                                assert(after[i as int].0@ != after[k].0@);
                                assert(is_last_of_name(before, k)) by {
                                    assert forall|j: int| k < j < before.len() implies (
                                    #[trigger] before[j]).0@ != before[k].0@ by {
                                        assert(after[j] == before[j]);
                                    }
                                }
                                assert(before[k] == after[k]);
                            }
                        }
                        assert forall|name: Seq<char>| #[trigger]
                            sources@.contains_key(name) implies exists|k: int|
                            0 <= k < after.len() && (#[trigger] after[k]).0@ == name by {
                            if name == entry.0@ {
                                assert(after[i as int].0@ == name);
                            } else {
                                assert(old_sources.contains_key(name));
                                let k = choose|k: int|
                                    0 <= k < before.len() && (#[trigger] before[k]).0@ == name;
                                assert(after[k] == before[k]);
                            }
                        }
                    }
                },
                Err(e) => {
                    return Err(e);
                },
            }
            i += 1;
        }
        proof {
            assert(self.source_configs@.take(i as int) == self.source_configs@);
        }
        Ok(sources)
    }
}

/// The routes of the first groups are the first routes of all.
proof fn lemma_route_list_prefix(groups: Seq<(String, RouteGroupConfig)>, n: int)
    requires
        0 <= n <= groups.len(),
    ensures
        route_list(groups.take(n)).len() <= route_list(groups).len(),
        route_list(groups.take(n)) == route_list(groups).take(
            route_list(groups.take(n)).len() as int,
        ),
    decreases groups.len(),
{
    if n == groups.len() {
        assert(groups.take(n) == groups);
        assert(route_list(groups).take(route_list(groups).len() as int) == route_list(groups));
    } else {
        assert(groups.drop_last().take(n) == groups.take(n));
        lemma_route_list_prefix(groups.drop_last(), n);
        let front = route_list(groups.drop_last());
        let m = route_list(groups.take(n)).len() as int;
        assert(route_list(groups).take(m) =~= front.take(m));
    }
}

} // verus!
