//! A source that answers with the contents of a file.

use crate::request::Request;
use crate::response::{MonitorConfig, Response, ResponseView};
use crate::template::{replace_placeholders, replaced};
use crate::time::{Duration, Instant};
use vstd::prelude::*;

verus! {

#[derive(Debug, Clone)]
pub struct File {
    pub monitor_config: MonitorConfig,
    pub path_template: String,
}

/// The answer of a source with the times of `config` to what reading or
/// fetching gave: the text where there is one, no value where there is
/// none.
pub open spec fn answer(config: MonitorConfig, text: Option<Seq<char>>, now: Instant) -> ResponseView {
    ResponseView { ttl: config.ttl(), expiry: config.expiry(), value: text, updated_at: now }
}

/// Stamps what reading or fetching gave with the times of `config`.
pub fn stamp(config: &MonitorConfig, text: Option<String>, now: Instant) -> (r: Response)
    ensures
        r@ == answer(
            *config,
            match text {
                Some(t) => Some(t@),
                None => None,
            },
            now,
        ),
{
    let response = Response::stamped(config, now);
    match text {
        Some(t) => response.with_value(t, now),
        None => response,
    }
}

impl File {
    /// A file source with the default times.
    pub fn new(path_template: &str) -> (f: Self)
        ensures
            f.path_template@ == path_template@,
            f.monitor_config.ttl().total_nanos() == 5_000_000_000,
            f.monitor_config.expiry().total_nanos() == 30_000_000_000,
    {
        Self { monitor_config: MonitorConfig::default(), path_template: path_template.to_owned() }
    }

    pub fn with_ttl(self, ttl: Duration) -> (f: Self)
        ensures
            f.path_template == self.path_template,
            f.monitor_config.ttl() == ttl,
            f.monitor_config.expiry() == self.monitor_config.expiry(),
    {
        Self {
            monitor_config: self.monitor_config.with_ttl(ttl),
            path_template: self.path_template,
        }
    }

    pub fn with_expiry(self, expiry: Duration) -> (f: Self)
        ensures
            f.path_template == self.path_template,
            f.monitor_config.ttl() == self.monitor_config.ttl(),
            f.monitor_config.expiry() == expiry,
    {
        Self {
            monitor_config: self.monitor_config.with_expiry(expiry),
            path_template: self.path_template,
        }
    }

    pub fn ttl(&self) -> (ttl: Duration)
        ensures
            ttl == self.monitor_config.ttl(),
    {
        self.monitor_config.ttl()
    }

    pub fn expiry(&self) -> (expiry: Duration)
        ensures
            expiry == self.monitor_config.expiry(),
    {
        self.monitor_config.expiry()
    }

    /// The path of the file to read for `request`.
    pub fn build_path(&self, request: &Request) -> (path: String)
        ensures
            path@ == replaced(self.path_template@, request@.captures),
    {
        replace_placeholders(self.path_template.as_str(), request.captures())
    }

    /// The answer once the file has been read: its contents, or no value
    /// where it could not be read.
    pub fn respond(&self, contents: Option<String>, now: Instant) -> (r: Response)
        ensures
            r@ == answer(
                self.monitor_config,
                match contents {
                    Some(t) => Some(t@),
                    None => None,
                },
                now,
            ),
    {
        stamp(&self.monitor_config, contents, now)
    }
}

} // verus!
