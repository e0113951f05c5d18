//! The settings of the connection pool to the secret store.

use vstd::prelude::*;
use vstd::string::*;

verus! {

/// Why a connection to the secret store could not be made.
#[derive(Debug)]
pub enum AwsSecretsManagerError {
    ClientCreation(String),
}

impl AwsSecretsManagerError {
    /// The error in words.
    pub fn to_string(&self) -> (s: String)
        ensures
            s@ == match self {
                AwsSecretsManagerError::ClientCreation(msg) => "Failed to create AWS client: "@
                    + msg@,
            },
    {
        match self {
            AwsSecretsManagerError::ClientCreation(msg) => {
                let mut s = String::from_str("Failed to create AWS client: ");
                s.append(msg.as_str());
                s
            },
        }
    }
}

/// How large the pool is, and which profile and region it connects with.
#[derive(Debug, Clone, PartialEq, Eq)]
pub struct AwsSecretsManagerPoolBuilder {
    pub max_size: u32,
    pub min_idle: Option<u32>,
    pub profile: Option<String>,
    pub region: Option<String>,
}

impl AwsSecretsManagerPoolBuilder {
    /// At most two connections, none kept idle, the default profile and
    /// region.
    pub fn new() -> (b: Self)
        ensures
            b.max_size == 2,
            b.min_idle == Some(0u32),
            b.profile is None,
            b.region is None,
    {
        Self { max_size: 2, min_idle: Some(0), profile: None, region: None }
    }

    pub fn with_max_size(self, size: u32) -> (b: Self)
        ensures
            b.max_size == size,
            b.min_idle == self.min_idle,
            b.profile == self.profile,
            b.region == self.region,
    {
        Self { max_size: size, min_idle: self.min_idle, profile: self.profile, region: self.region }
    }

    pub fn with_min_idle(self, min: u32) -> (b: Self)
        ensures
            b.max_size == self.max_size,
            b.min_idle == Some(min),
            b.profile == self.profile,
            b.region == self.region,
    {
        Self {
            max_size: self.max_size,
            min_idle: Some(min),
            profile: self.profile,
            region: self.region,
        }
    }

    pub fn with_profile(self, profile: &str) -> (b: Self)
        ensures
            b.max_size == self.max_size,
            b.min_idle == self.min_idle,
            b.profile matches Some(p) && p@ == profile@,
            b.region == self.region,
    {
        Self {
            max_size: self.max_size,
            min_idle: self.min_idle,
            profile: Some(profile.to_owned()),
            region: self.region,
        }
    }

    pub fn with_region(self, region: &str) -> (b: Self)
        ensures
            b.max_size == self.max_size,
            b.min_idle == self.min_idle,
            b.profile == self.profile,
            b.region matches Some(r) && r@ == region@,
    {
        Self {
            max_size: self.max_size,
            min_idle: self.min_idle,
            profile: self.profile,
            region: Some(region.to_owned()),
        }
    }
}

impl Default for AwsSecretsManagerPoolBuilder {
    fn default() -> (b: Self)
        ensures
            b.max_size == 2,
            b.min_idle == Some(0u32),
            b.profile is None,
            b.region is None,
    {
        Self::new()
    }
}

} // verus!
