//! A read-through, refresh-ahead cache origin that speaks the memcached
//! wire protocol.

pub mod captures;
pub mod chars;
pub mod config;
pub mod flights;
pub mod monitor;
pub mod pool;
pub mod protocol;
pub mod request;
pub mod response;
pub mod router;
pub mod server;
pub mod service;
pub mod source;
pub mod template;
pub mod time;
pub mod writer;

pub use monitor::{MonitorTask, MonitorTasks};
pub use request::Request;
pub use response::Response;
pub use router::Router;
pub use server::Server;
pub use service::Service;
pub use source::{source, Source, Sources};
pub use template::replace_placeholders;

use vstd::prelude::*;
use vstd::string::*;

verus! {

/// The version of the library.
pub const VERSION: &'static str = "0.1.0";

/// What a source produces for a key.
pub type Value = String;

/// A function that answers requests: what a caller may hand over in place
/// of a configured source.
pub trait AsyncGetter: Fn(&Request) -> Response + Clone + Send + Sync + 'static {

}

impl<F> AsyncGetter for F where F: Fn(&Request) -> Response + Clone + Send + Sync + 'static {

}

/// What can go wrong while a command is handled.
#[derive(Debug)]
pub enum Error {
    /// No route matches the key.
    NotFound,
    /// The source is bound but not configured.
    NotReady,
    /// Anything else, in words.
    Other(String),
}

pub enum ErrorView {
    NotFound,
    NotReady,
    Other(Seq<char>),
}

impl View for Error {
    type V = ErrorView;

    open spec fn view(&self) -> ErrorView {
        match self {
            Error::NotFound => ErrorView::NotFound,
            Error::NotReady => ErrorView::NotReady,
            Error::Other(reason) => ErrorView::Other(reason@),
        }
    }
}

impl Error {
    /// The error in words.
    pub fn to_string(&self) -> (s: String)
        ensures
            s@ == match self@ {
                ErrorView::NotFound => "not found"@,
                ErrorView::NotReady => "not ready"@,
                ErrorView::Other(reason) => "other: "@ + reason,
            },
    {
        match self {
            Error::NotFound => String::from_str("not found"),
            Error::NotReady => String::from_str("not ready"),
            Error::Other(reason) => {
                let mut s = String::from_str("other: ");
                s.append(reason.as_str());
                s
            },
        }
    }
}

} // verus!
