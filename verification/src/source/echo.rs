//! A source that answers with a template filled from the request.

use crate::request::Request;
use crate::response::{MonitorConfig, Response, ResponseView};
use crate::template::{replace_placeholders, replaced};
use crate::time::{Duration, Instant};
use vstd::prelude::*;

verus! {

#[derive(Debug, Clone)]
pub struct Echo {
    pub monitor_config: MonitorConfig,
    pub template: String,
}

impl Echo {
    /// An echo of the empty template, with the default times.
    pub fn new() -> (e: Self)
        ensures
            e.template@ == Seq::<char>::empty(),
            e.monitor_config.ttl().total_nanos() == 5_000_000_000,
            e.monitor_config.expiry().total_nanos() == 30_000_000_000,
    {
        Self { monitor_config: MonitorConfig::default(), template: String::new() }
    }

    pub fn template(&self) -> (t: &str)
        ensures
            t@ == self.template@,
    {
        self.template.as_str()
    }

    pub fn with_template(self, template: &str) -> (e: Self)
        ensures
            e.template@ == template@,
            e.monitor_config == self.monitor_config,
    {
        Self { monitor_config: self.monitor_config, template: template.to_owned() }
    }

    pub fn with_ttl(self, ttl: Duration) -> (e: Self)
        ensures
            e.template == self.template,
            e.monitor_config.ttl() == ttl,
            e.monitor_config.expiry() == self.monitor_config.expiry(),
    {
        Self { monitor_config: self.monitor_config.with_ttl(ttl), template: self.template }
    }

    pub fn with_expiry(self, expiry: Duration) -> (e: Self)
        ensures
            e.template == self.template,
            e.monitor_config.ttl() == self.monitor_config.ttl(),
            e.monitor_config.expiry() == expiry,
    {
        Self { monitor_config: self.monitor_config.with_expiry(expiry), template: self.template }
    }

    pub fn ttl(&self) -> (ttl: Duration)
        ensures
            ttl == self.monitor_config.ttl(),
    {
        self.monitor_config.ttl()
    }

    pub fn expiry(&self) -> (expiry: Duration)
        ensures
            expiry == self.monitor_config.expiry(),
    {
        self.monitor_config.expiry()
    }

    /// The template with its placeholders filled from the captures of
    /// `request`, stamped with the times of this source.
    pub fn call(&self, request: &Request, now: Instant) -> (r: Response)
        ensures
            r@ == (ResponseView {
                ttl: self.monitor_config.ttl(),
                expiry: self.monitor_config.expiry(),
                value: Some(replaced(self.template@, request@.captures)),
                updated_at: now,
            }),
    {
        let value = replace_placeholders(self.template(), request.captures());
        Response::stamped(&self.monitor_config, now).with_value(value, now)
    }
}

} // verus!
