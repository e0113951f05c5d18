//! A source that answers with a secret from a secret store.

use crate::request::Request;
use crate::response::{MonitorConfig, Response};
use crate::source::file::{answer, stamp};
use crate::template::{replace_placeholders, replaced};
use crate::time::{Duration, Instant};
use base64::engine::general_purpose;
use base64::Engine;
use vstd::prelude::*;

verus! {

#[derive(Debug, Clone)]
pub struct AwsSecretsManager {
    pub monitor_config: MonitorConfig,
    pub secret_id_template: String,
    /// The name of the connection pool to fetch through, if not the
    /// default one.
    pub pool: Option<String>,
}

/// What the secret store gave.
#[derive(Debug, Clone)]
pub enum Secret {
    /// A secret that is text.
    Text(String),
    /// A secret that is bytes.
    Binary(Vec<u8>),
    /// A secret with neither text nor bytes.
    Empty,
    /// No connection, or the store refused.
    Failed,
}

/// The text that the standard base64 engine encodes bytes as.
pub uninterp spec fn base64_standard(bytes: Seq<u8>) -> Seq<char>;

/// `Engine::encode` of `general_purpose::STANDARD`: the bytes in base64,
/// standard alphabet, padded.
#[verifier::external_body]
fn encode_base64(bytes: &[u8]) -> (text: String)
    ensures
        text@ == base64_standard(bytes@),
{
    general_purpose::STANDARD.encode(bytes)
}

/// The value that a secret becomes: text as it is, bytes in base64.
pub open spec fn secret_value(secret: Secret) -> Option<Seq<char>> {
    match secret {
        Secret::Text(text) => Some(text@),
        Secret::Binary(bytes) => Some(base64_standard(bytes@)),
        Secret::Empty => None,
        Secret::Failed => None,
    }
}

impl AwsSecretsManager {
    /// A source with an empty template, the default pool and the default
    /// times.
    pub fn new() -> (a: Self)
        ensures
            a.secret_id_template@ == Seq::<char>::empty(),
            a.pool is None,
            a.monitor_config.ttl().total_nanos() == 5_000_000_000,
            a.monitor_config.expiry().total_nanos() == 30_000_000_000,
    {
        Self {
            monitor_config: MonitorConfig::default(),
            secret_id_template: String::new(),
            pool: None,
        }
    }

    pub fn with_secret_id(self, template: &str) -> (a: Self)
        ensures
            a.secret_id_template@ == template@,
            a.pool == self.pool,
            a.monitor_config == self.monitor_config,
    {
        Self {
            monitor_config: self.monitor_config,
            secret_id_template: template.to_owned(),
            pool: self.pool,
        }
    }

    pub fn with_pool(self, pool: &str) -> (a: Self)
        ensures
            a.pool matches Some(name) && name@ == pool@,
            a.secret_id_template == self.secret_id_template,
            a.monitor_config == self.monitor_config,
    {
        Self {
            monitor_config: self.monitor_config,
            secret_id_template: self.secret_id_template,
            pool: Some(pool.to_owned()),
        }
    }

    pub fn with_ttl(self, ttl: Duration) -> (a: Self)
        ensures
            a.monitor_config.ttl() == ttl,
            a.monitor_config.expiry() == self.monitor_config.expiry(),
            a.secret_id_template == self.secret_id_template,
            a.pool == self.pool,
    {
        Self {
            monitor_config: self.monitor_config.with_ttl(ttl),
            secret_id_template: self.secret_id_template,
            pool: self.pool,
        }
    }

    pub fn with_expiry(self, expiry: Duration) -> (a: Self)
        ensures
            a.monitor_config.ttl() == self.monitor_config.ttl(),
            a.monitor_config.expiry() == expiry,
            a.secret_id_template == self.secret_id_template,
            a.pool == self.pool,
    {
        Self {
            monitor_config: self.monitor_config.with_expiry(expiry),
            secret_id_template: self.secret_id_template,
            pool: self.pool,
        }
    }

    pub fn ttl(&self) -> (ttl: Duration)
        ensures
            ttl == self.monitor_config.ttl(),
    {
        self.monitor_config.ttl()
    }

    pub fn expiry(&self) -> (expiry: Duration)
        ensures
            expiry == self.monitor_config.expiry(),
    {
        self.monitor_config.expiry()
    }

    /// The identifier of the secret to fetch for `request`.
    pub fn build_secret_id(&self, request: &Request) -> (id: String)
        ensures
            id@ == replaced(self.secret_id_template@, request@.captures),
    {
        replace_placeholders(self.secret_id_template.as_str(), request.captures())
    }

    /// The answer once the store has been asked: text as it is, bytes in
    /// base64, and no value where there was no secret.
    pub fn respond(&self, secret: Secret, now: Instant) -> (r: Response)
        ensures
            r@ == answer(self.monitor_config, secret_value(secret), now),
    {
        let value = match secret {
            Secret::Text(text) => Some(text),
            Secret::Binary(bytes) => Some(encode_base64(bytes.as_slice())),
            Secret::Empty => None,
            Secret::Failed => None,
        };
        stamp(&self.monitor_config, value, now)
    }
}

} // verus!
