//! A source that answers with the body of an HTTP response.

use crate::captures::Captures;
use crate::request::Request;
use crate::response::{MonitorConfig, Response};
use crate::source::file::{answer, stamp};
use crate::template::{replace_placeholders, replaced};
use crate::time::{Duration, Instant};
use url::Url;
use vstd::prelude::*;
use vstd::string::*;

verus! {

#[derive(Debug, Clone)]
pub struct Http {
    pub monitor_config: MonitorConfig,
    pub url_template: String,
    pub method: String,
    pub headers: Captures,
    pub timeout: Duration,
}

/// The request to send: where, how, with which headers, and how long to
/// wait.
#[derive(Debug, Clone)]
pub struct HttpCall {
    pub url: String,
    pub method: String,
    pub headers: Captures,
    pub timeout: Duration,
}

/// The URL that `Url::parse` makes of `text`, as `Url::as_str` writes it;
/// nothing where it does not accept the text.
pub uninterp spec fn parsed_url(text: Seq<char>) -> Option<Seq<char>>;

/// `Url::parse` reads an absolute URL, and `Url::as_str` writes it back in
/// its normal form.
#[verifier::external_body]
fn parse_url(text: &str) -> (r: Option<String>)
    ensures
        match r {
            Some(url) => parsed_url(text@) == Some(url@),
            None => parsed_url(text@) is None,
        },
{
    Url::parse(text).ok().map(|u| u.as_str().to_string())
}

impl Http {
    /// A source that gets `url_template` with no headers, waits thirty
    /// seconds, and has the default times.
    pub fn new(url_template: &str) -> (h: Self)
        ensures
            h.url_template@ == url_template@,
            h.method@ == "GET"@,
            h.headers@ == Map::<Seq<char>, Seq<char>>::empty(),
            h.timeout.total_nanos() == 30_000_000_000,
            h.monitor_config.ttl().total_nanos() == 5_000_000_000,
            h.monitor_config.expiry().total_nanos() == 30_000_000_000,
    {
        Self {
            monitor_config: MonitorConfig::default(),
            url_template: url_template.to_owned(),
            method: String::from_str("GET"),
            headers: Captures::new(),
            timeout: Duration::from_secs(30),
        }
    }

    pub fn with_timeout(self, timeout: Duration) -> (h: Self)
        ensures
            h.timeout == timeout,
            h.url_template == self.url_template,
            h.method == self.method,
            h.headers == self.headers,
            h.monitor_config == self.monitor_config,
    {
        Self {
            monitor_config: self.monitor_config,
            url_template: self.url_template,
            method: self.method,
            headers: self.headers,
            timeout,
        }
    }

    pub fn with_headers(self, headers: Captures) -> (h: Self)
        ensures
            h.headers == headers,
            h.url_template == self.url_template,
            h.method == self.method,
            h.timeout == self.timeout,
            h.monitor_config == self.monitor_config,
    {
        Self {
            monitor_config: self.monitor_config,
            url_template: self.url_template,
            method: self.method,
            headers,
            timeout: self.timeout,
        }
    }

    pub fn with_method(self, method: &str) -> (h: Self)
        ensures
            h.method@ == method@,
            h.url_template == self.url_template,
            h.headers == self.headers,
            h.timeout == self.timeout,
            h.monitor_config == self.monitor_config,
    {
        Self {
            monitor_config: self.monitor_config,
            url_template: self.url_template,
            method: method.to_owned(),
            headers: self.headers,
            timeout: self.timeout,
        }
    }

    pub fn with_ttl(self, ttl: Duration) -> (h: Self)
        ensures
            h.monitor_config.ttl() == ttl,
            h.monitor_config.expiry() == self.monitor_config.expiry(),
            h.url_template == self.url_template,
            h.method == self.method,
            h.headers == self.headers,
            h.timeout == self.timeout,
    {
        Self {
            monitor_config: self.monitor_config.with_ttl(ttl),
            url_template: self.url_template,
            method: self.method,
            headers: self.headers,
            timeout: self.timeout,
        }
    }

    pub fn with_expiry(self, expiry: Duration) -> (h: Self)
        ensures
            h.monitor_config.ttl() == self.monitor_config.ttl(),
            h.monitor_config.expiry() == expiry,
            h.url_template == self.url_template,
            h.method == self.method,
            h.headers == self.headers,
            h.timeout == self.timeout,
    {
        Self {
            monitor_config: self.monitor_config.with_expiry(expiry),
            url_template: self.url_template,
            method: self.method,
            headers: self.headers,
            timeout: self.timeout,
        }
    }

    pub fn ttl(&self) -> (ttl: Duration)
        ensures
            ttl == self.monitor_config.ttl(),
    {
        self.monitor_config.ttl()
    }

    pub fn expiry(&self) -> (expiry: Duration)
        ensures
            expiry == self.monitor_config.expiry(),
    {
        self.monitor_config.expiry()
    }

    /// The URL to ask for `request`: the template with its placeholders
    /// filled, as `Url::parse` reads it; nothing where that is no URL.
    pub fn build_url(&self, request: &Request) -> (r: Option<String>)
        ensures
            match r {
                Some(url) => parsed_url(replaced(self.url_template@, request@.captures)) == Some(
                    url@,
                ),
                None => parsed_url(replaced(self.url_template@, request@.captures)) is None,
            },
    {
        let text = replace_placeholders(self.url_template.as_str(), request.captures());
        parse_url(text.as_str())
    }

    /// The request to send for `request`; nothing where the template gives
    /// no URL.
    pub fn call_for(&self, request: &Request) -> (r: Option<HttpCall>)
        ensures
            match r {
                Some(call) => {
                    &&& parsed_url(replaced(self.url_template@, request@.captures)) == Some(
                        call.url@,
                    )
                    &&& call.method@ == self.method@
                    &&& call.headers@ == self.headers@
                    &&& call.timeout == self.timeout
                },
                None => parsed_url(replaced(self.url_template@, request@.captures)) is None,
            },
    {
        match self.build_url(request) {
            Some(url) => Some(
                HttpCall {
                    url,
                    method: self.method.clone(),
                    headers: self.headers.clone(),
                    timeout: self.timeout,
                },
            ),
            None => None,
        }
    }

    /// The answer once the request has been made: the body, or no value
    /// where the request or the reading of the body failed.
    pub fn respond(&self, body: Option<String>, now: Instant) -> (r: Response)
        ensures
            r@ == answer(
                self.monitor_config,
                match body {
                    Some(t) => Some(t@),
                    None => None,
                },
                now,
            ),
    {
        stamp(&self.monitor_config, body, now)
    }
}

} // verus!
