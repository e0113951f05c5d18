//! What a source answers: a value, and how long to keep and refresh it.

use crate::time::{Duration, Instant};
use vstd::prelude::*;

verus! {

/// How long a value is kept warm, and how long its refresh task lives
/// without being touched.
#[derive(Debug, Clone, Copy, PartialEq, Eq)]
pub struct MonitorConfig {
    ttl: Duration,
    expiry: Duration,
}

impl MonitorConfig {
    pub fn new(ttl: Duration, expiry: Duration) -> (c: Self)
        ensures
            c.ttl() == ttl,
            c.expiry() == expiry,
    {
        Self { ttl, expiry }
    }

    pub fn with_ttl(self, ttl: Duration) -> (c: Self)
        ensures
            c.ttl() == ttl,
            c.expiry() == self.expiry(),
    {
        Self { ttl, expiry: self.expiry }
    }

    #[verifier::when_used_as_spec(spec_ttl)]
    pub fn ttl(&self) -> (ttl: Duration)
        ensures
            ttl == self.ttl(),
    {
        self.ttl
    }

    pub fn with_expiry(self, expiry: Duration) -> (c: Self)
        ensures
            c.ttl() == self.ttl(),
            c.expiry() == expiry,
    {
        Self { ttl: self.ttl, expiry }
    }

    #[verifier::when_used_as_spec(spec_expiry)]
    pub fn expiry(&self) -> (expiry: Duration)
        ensures
            expiry == self.expiry(),
    {
        self.expiry
    }

    pub closed spec fn spec_ttl(&self) -> Duration {
        self.ttl
    }

    pub closed spec fn spec_expiry(&self) -> Duration {
        self.expiry
    }

    /// Whether a value stamped with this configuration may be kept: the
    /// time to live is positive and the expiry is no shorter.
    pub open spec fn keeps_values(&self) -> bool {
        self.ttl().total_nanos() > 0 && self.expiry().total_nanos() >= self.ttl().total_nanos()
    }

    /// Decides whether a value stamped with this configuration may be
    /// kept.
    pub fn can_keep_values(&self) -> (r: bool)
        ensures
            r == self.keeps_values(),
    {
        !self.ttl.is_zero() && self.expiry.as_nanos() >= self.ttl.as_nanos()
    }
}

impl Default for MonitorConfig {
    /// Five seconds to live, thirty seconds to expiry.
    fn default() -> (c: Self)
        ensures
            c.ttl().total_nanos() == 5_000_000_000,
            c.expiry().total_nanos() == 30_000_000_000,
    {
        Self { ttl: Duration::from_secs(5), expiry: Duration::from_secs(30) }
    }
}

/// The answer of a source.
#[derive(Debug)]
pub struct Response {
    monitor_config: MonitorConfig,
    value: Option<String>,
    updated_at: Instant,
}

pub struct ResponseView {
    pub ttl: Duration,
    pub expiry: Duration,
    pub value: Option<Seq<char>>,
    pub updated_at: Instant,
}

impl View for Response {
    type V = ResponseView;

    closed spec fn view(&self) -> ResponseView {
        ResponseView {
            ttl: self.monitor_config.ttl(),
            expiry: self.monitor_config.expiry(),
            value: match self.value {
                Some(v) => Some(v@),
                None => None,
            },
            updated_at: self.updated_at,
        }
    }
}

impl Clone for Response {
    fn clone(&self) -> (r: Self)
        ensures
            r@ == self@,
    {
        Response {
            monitor_config: self.monitor_config,
            value: match &self.value {
                Some(v) => Some(v.clone()),
                None => None,
            },
            updated_at: self.updated_at,
        }
    }
}

/// What is kept of an answer: the answer as it is where its times allow a
/// value to be kept, the answer without its value where they do not.
pub open spec fn kept_view(r: ResponseView) -> ResponseView {
    if r.ttl.total_nanos() > 0 && r.expiry.total_nanos() >= r.ttl.total_nanos() {
        r
    } else {
        ResponseView { value: None, ..r }
    }
}

impl Response {
    /// What is kept of this answer: it loses its value unless its time to
    /// live is positive and its expiry no shorter.
    pub fn kept(self) -> (r: Self)
        ensures
            r@ == kept_view(self@),
    {
        if self.monitor_config.can_keep_values() {
            self
        } else {
            Response {
                monitor_config: self.monitor_config,
                value: None,
                updated_at: self.updated_at,
            }
        }
    }

    /// An answer without a value, made at `now`, with the default times.
    pub fn new(now: Instant) -> (r: Self)
        ensures
            r@.value is None,
            r@.updated_at == now,
            r@.ttl.total_nanos() == 5_000_000_000,
            r@.expiry.total_nanos() == 30_000_000_000,
    {
        Self { monitor_config: MonitorConfig::default(), value: None, updated_at: now }
    }

    /// The same answer with `value`, produced at `now`.
    pub fn with_value(self, value: String, now: Instant) -> (r: Self)
        ensures
            r@ == (ResponseView { value: Some(value@), updated_at: now, ..self@ }),
    {
        Self { monitor_config: self.monitor_config, value: Some(value), updated_at: now }
    }

    pub fn value(&self) -> (v: Option<String>)
        ensures
            match v {
                Some(s) => self@.value == Some(s@),
                None => self@.value is None,
            },
    {
        match &self.value {
            Some(s) => Some(s.clone()),
            None => None,
        }
    }

    pub fn with_ttl(self, ttl: Duration) -> (r: Self)
        ensures
            r@ == (ResponseView { ttl, ..self@ }),
    {
        Self {
            monitor_config: self.monitor_config.with_ttl(ttl),
            value: self.value,
            updated_at: self.updated_at,
        }
    }

    pub fn ttl(&self) -> (ttl: Duration)
        ensures
            ttl == self@.ttl,
    {
        self.monitor_config.ttl()
    }

    pub fn with_expiry(self, expiry: Duration) -> (r: Self)
        ensures
            r@ == (ResponseView { expiry, ..self@ }),
    {
        Self {
            monitor_config: self.monitor_config.with_expiry(expiry),
            value: self.value,
            updated_at: self.updated_at,
        }
    }

    pub fn expiry(&self) -> (expiry: Duration)
        ensures
            expiry == self@.expiry,
    {
        self.monitor_config.expiry()
    }

    pub fn updated_at(&self) -> (t: Instant)
        ensures
            t == self@.updated_at,
    {
        self.updated_at
    }

    /// An answer without a value, made at `now` and stamped with `config`.
    pub fn stamped(config: &MonitorConfig, now: Instant) -> (r: Self)
        ensures
            r@ == (ResponseView {
                ttl: config.ttl(),
                expiry: config.expiry(),
                value: None,
                updated_at: now,
            }),
    {
        Self { monitor_config: *config, value: None, updated_at: now }
    }
}

} // verus!
