//! A request for one key, with the text captured from the key by the rule
//! that routed it.

use crate::captures::Captures;
use crate::source::Sources;
use std::sync::Arc;
use vstd::prelude::*;
use vstd::string::*;

verus! {

/// A key, its captures, and the registry of sources if one is attached.
/// The captures always let `$key` stand for the key.
#[derive(Debug)]
pub struct Request {
    key: String,
    captures: Captures,
    sources: Option<Arc<Sources>>,
}

pub struct RequestView {
    pub key: Seq<char>,
    pub captures: Map<Seq<char>, Seq<char>>,
    pub sources: Option<Sources>,
}

/// `Arc::clone` gives another handle to the same value.
#[verifier::external_body]
pub(crate) fn share<T>(handle: &Arc<T>) -> (r: Arc<T>)
    ensures
        *r == **handle,
{
    Arc::clone(handle)
}

impl View for Request {
    type V = RequestView;

    closed spec fn view(&self) -> RequestView {
        RequestView {
            key: self.key@,
            captures: self.captures@,
            sources: match self.sources {
                Some(s) => Some(*s),
                None => None,
            },
        }
    }
}

impl Clone for Request {
    fn clone(&self) -> (r: Self)
        ensures
            r@ == self@,
    {
        proof {
            use_type_invariant(self);
        }
        Request {
            key: self.key.clone(),
            captures: self.captures.clone(),
            sources: match &self.sources {
                Some(s) => Some(share(s)),
                None => None,
            },
        }
    }
}

impl Request {
    #[verifier::type_invariant]
    spec fn well_formed(&self) -> bool {
        self.captures@.contains_key("$key"@) && self.captures@["$key"@] == self.key@
    }

    /// A request for `key` whose only capture is `$key`.
    pub fn new(key: &str) -> (r: Self)
        ensures
            r@.key == key@,
            r@.captures == Map::<Seq<char>, Seq<char>>::empty().insert("$key"@, key@),
            r@.sources is None,
    {
        let mut captures = Captures::new();
        captures.insert(String::from_str("$key"), key.to_owned());
        Request { key: key.to_owned(), captures, sources: None }
    }

    /// The same request with `captures` in place of its own; `$key` still
    /// stands for the key.
    pub fn with_captures(self, captures: Captures) -> (r: Self)
        ensures
            r@ == (RequestView { captures: captures@.insert("$key"@, self@.key), ..self@ }),
    {
        let mut captures = captures;
        captures.insert(String::from_str("$key"), self.key.clone());
        Request { key: self.key, captures, sources: self.sources }
    }

    /// The same request with the registry `sources` attached.
    pub fn with_sources(self, sources: Arc<Sources>) -> (r: Self)
        ensures
            r@ == (RequestView { sources: Some(*sources), ..self@ }),
    {
        proof {
            use_type_invariant(&self);
        }
        Request { key: self.key, captures: self.captures, sources: Some(sources) }
    }

    /// The bytes that the names and texts of the captures take as UTF-8.
    pub closed spec fn captures_len(&self) -> nat {
        self.captures.byte_len()
    }

    /// The whole key.
    pub fn key(&self) -> (k: &str)
        ensures
            k@ == self@.key,
    {
        self.key.as_str()
    }

    /// What `k` stands for among the captures.
    pub fn get(&self, k: &str) -> (r: Option<&str>)
        ensures
            match r {
                Some(text) => self@.captures.contains_key(k@) && self@.captures[k@] == text@,
                None => !self@.captures.contains_key(k@),
            },
    {
        match self.captures.get(k) {
            Some(text) => Some(text.as_str()),
            None => None,
        }
    }

    /// The captures; they hold the key under `$key`.
    pub fn captures(&self) -> (c: &Captures)
        ensures
            c@ == self@.captures,
            c.byte_len() == self.captures_len(),
            c@.contains_key("$key"@),
            c@["$key"@] == self@.key,
    {
        proof {
            use_type_invariant(self);
        }
        &self.captures
    }

    /// The registry of sources, if one is attached.
    pub fn sources(&self) -> (s: Option<&Arc<Sources>>)
        ensures
            match s {
                Some(handle) => self@.sources == Some(**handle),
                None => self@.sources is None,
            },
    {
        match &self.sources {
            Some(handle) => Some(handle),
            None => None,
        }
    }
}

} // verus!
