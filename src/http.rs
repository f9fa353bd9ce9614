//! HTTP exchanges with the remote store, as plain values: the requests this
//! library frames, and what the caller reports back.

use vstd::prelude::*;
use vstd::string::*;
use crate::errors::Error;
use crate::grammar::{trim, trimmed};
use crate::json::Json;

verus! {

/// An HTTP method.
#[derive(Clone, Copy, Debug, PartialEq, Eq)]
pub enum Method {
    Get,
    Post,
}

/// A request to send.
#[derive(Debug)]
pub struct Request {
    pub method: Method,
    pub url: String,
    pub headers: Vec<(String, String)>,
    /// A body to send as JSON.
    pub body: Option<Json>,
}

/// A response that arrived.
#[derive(Debug)]
pub struct Response {
    pub status: u16,
    /// The body as text.
    pub body: String,
    /// The body as JSON, or why it is not JSON.
    pub json: Result<Json, String>,
}

/// What became of a request.
#[derive(Debug)]
pub enum Outcome {
    Received(Response),
    /// The request could not be sent or its response not read.
    Failed(String),
}

/// A 2xx status.
pub open spec fn is_success(status: u16) -> bool {
    200 <= status && status <= 299
}

/// What an error about `url` says went wrong.
pub open spec fn url_cause<T>(r: Result<T, Error>, url: Seq<char>) -> Option<Error> {
    match r {
        Err(Error::Url { url: u, source }) => if u@ == url {
            Some(*source)
        } else {
            None
        },
        _ => None,
    }
}

/// The JSON of a successful response whose body is JSON.
pub open spec fn reply_value(outcome: Outcome) -> Option<Json> {
    match outcome {
        Outcome::Received(resp) => if is_success(resp.status) {
            match resp.json {
                Ok(j) => Some(j),
                Err(_) => None,
            }
        } else {
            None
        },
        Outcome::Failed(_) => None,
    }
}

/// The error about `url` for a reply without a JSON value: what failed in
/// sending, the status and trimmed body of an unsuccessful response, or why
/// the body is not JSON, as another kind of error.
pub open spec fn reply_error<T>(url: Seq<char>, outcome: Outcome, r: Result<T, Error>) -> bool {
    match outcome {
        Outcome::Failed(m) => match url_cause(r, url) {
            Some(Error::Other(msg)) => msg@ == m@,
            _ => false,
        },
        Outcome::Received(resp) => if is_success(resp.status) {
            match resp.json {
                Ok(_) => false,
                Err(m) => match url_cause(r, url) {
                    Some(Error::Other(message)) => message@ == m@,
                    _ => false,
                },
            }
        } else {
            match url_cause(r, url) {
                Some(Error::UnexpectedHttpStatus { status, body }) => status == resp.status && body@ == trimmed(
                    resp.body@,
                ),
                _ => false,
            }
        },
    }
}

/// The JSON of a successful response to a request to `url`; otherwise the
/// error about `url`.
pub fn reply_json(url: &str, outcome: Outcome) -> (r: Result<Json, Error>)
    ensures
        match reply_value(outcome) {
            Some(j) => r == Ok::<Json, Error>(j),
            None => reply_error(url@, outcome, r),
        },
{
    match outcome {
        Outcome::Failed(m) => Err(Error::Url { url: url.to_owned(), source: Box::new(Error::Other(m)) }),
        Outcome::Received(resp) => {
            if 200 <= resp.status && resp.status <= 299 {
                match resp.json {
                    Ok(j) => Ok(j),
                    Err(m) => Err(
                        Error::Url { url: url.to_owned(), source: Box::new(Error::Other(m)) },
                    ),
                }
            } else {
                let body = trim(resp.body.as_str());
                Err(
                    Error::Url {
                        url: url.to_owned(),
                        source: Box::new(Error::UnexpectedHttpStatus { status: resp.status, body }),
                    },
                )
            }
        },
    }
}

} // verus!
