//! Resolve credential names to secret values, through an ordered chain of
//! secret stores.
//!
//! The library holds the logic: the `Secretfile` format and its
//! interpolation, the fallback rules of the chain, the remote store's token
//! selection, request framing, response decoding and per-path secret cache.
//! Reading the process environment, files and the network is left to the
//! caller, which hands the results back as plain values.

pub mod chained;
pub mod env;
pub mod envvar;
pub mod errors;
pub mod format;
pub mod grammar;
pub mod http;
pub mod json;
pub mod secretfile;
pub mod table;
pub mod text;
pub mod vault;

pub use env::Environment;
pub use errors::Error;
pub use secretfile::{Location, Secretfile, SecretfileKeys, SecretfileLookup};

use vstd::prelude::*;
use crate::chained::Attempt;

verus! {

/// Options for a `Client`.
#[derive(Debug)]
pub struct Options {
    secretfile: Option<Secretfile>,
    allow_override: bool,
}

impl Default for Options {
    /// No `Secretfile` given, and overriding allowed.
    fn default() -> (r: Options)
        ensures
            r.secretfile_given() is None,
            r.allows_override(),
    {
        Options { secretfile: None, allow_override: true }
    }
}

impl Options {
    /// The `Secretfile` given, if any.
    pub closed spec fn secretfile_given(&self) -> Option<Secretfile> {
        self.secretfile
    }

    /// Whether environment variables and local files may override the store.
    pub closed spec fn allows_override(&self) -> bool {
        self.allow_override
    }

    /// Uses `secretfile` rather than the default one.
    pub fn secretfile(self, secretfile: Secretfile) -> (r: Options)
        ensures
            r.secretfile_given() == Some(secretfile),
            r.allows_override() == self.allows_override(),
    {
        let mut o = self;
        o.secretfile = Some(secretfile);
        o
    }

    /// Allows secrets in environment variables and local files to override
    /// the ones the `Secretfile` locates. Defaults to true.
    pub fn allow_override(self, allow_override: bool) -> (r: Options)
        ensures
            r.secretfile_given() == self.secretfile_given(),
            r.allows_override() == allow_override,
    {
        let mut o = self;
        o.allow_override = allow_override;
        o
    }

    /// The `Secretfile` given and whether overriding is allowed.
    pub fn into_parts(self) -> (r: (Option<Secretfile>, bool))
        ensures
            r == (self.secretfile_given(), self.allows_override()),
    {
        (self.secretfile, self.allow_override)
    }
}

/// A client that resolves credentials: a `Secretfile` and a chain of
/// backends.
#[derive(Debug)]
pub struct Client {
    secretfile: Secretfile,
    backend: chained::Client,
}

impl View for Client {
    type V = (secretfile::SecretfileView, Seq<chained::BackendView>);

    closed spec fn view(&self) -> Self::V {
        (self.secretfile@, self.backend@)
    }
}

impl Client {
    /// The chain is well formed.
    pub closed spec fn wf(&self) -> bool {
        self.backend.wf()
    }

    /// A client with `secretfile` and the chain `backend`.
    pub fn new(secretfile: Secretfile, backend: chained::Client) -> (r: Client)
        requires
            backend.wf(),
        ensures
            r@ == (secretfile@, backend@),
            r.wf(),
    {
        Client { secretfile, backend }
    }

    /// The `Secretfile` in use.
    pub fn secretfile(&self) -> (r: &Secretfile)
        ensures
            r@ == self@.0,
    {
        &self.secretfile
    }

    /// How many backends the chain holds.
    pub fn backend_count(&self) -> (r: usize)
        ensures
            r == self@.1.len(),
    {
        self.backend.len()
    }

    /// What backend `i` makes of the variable `name`.
    pub fn var_at(&self, i: usize, env: &Environment, name: &str) -> (r: Attempt)
        requires
            self.wf(),
            i < self@.1.len(),
        ensures
            chained::var_attempt(self@.1[i as int], self@.0, env@, name@, r),
    {
        self.backend.var_at(i, &self.secretfile, env, name)
    }

    /// What backend `i` makes of the file `path`.
    pub fn file_at(&self, i: usize, path: &str) -> (r: Attempt)
        requires
            self.wf(),
            i < self@.1.len(),
        ensures
            chained::file_attempt(self@.1[i as int], self@.0, path@, r),
    {
        self.backend.file_at(i, &self.secretfile, path)
    }

    /// Hands the reply to `fetch` to backend `i`, the store that asked for it.
    pub fn receive_at(&mut self, i: usize, fetch: vault::Fetch, outcome: http::Outcome) -> (r: Result<String, Error>)
        requires
            old(self).wf(),
            i < old(self)@.1.len(),
            match old(self)@.1[i as int] {
                chained::BackendView::Vault(c) => table::lookup(c.secrets, fetch.path@) is None,
                _ => false,
            },
        ensures
            final(self).wf(),
            final(self)@.0 == old(self)@.0,
            final(self)@.1.len() == old(self)@.1.len(),
            forall|j: int| 0 <= j < old(self)@.1.len() && j != i ==> final(self)@.1[j] == old(self)@.1[j],
            match (old(self)@.1[i as int], final(self)@.1[i as int]) {
                (chained::BackendView::Vault(c), chained::BackendView::Vault(d)) => vault::receives(c, d, fetch, outcome, r),
                _ => false,
            },
    {
        self.backend.receive_at(i, fetch, outcome)
    }

    /// The result of resolving the credential `name`, with a failure
    /// reported as a failure to access `name`.
    pub fn credential_result(name: &str, r: Result<String, Error>) -> (t: Result<String, Error>)
        ensures
            match r {
                Ok(_) => t == r,
                Err(e0) => match t {
                    Err(Error::Credential { name: n, source }) => n@ == name@ && *source == e0,
                    _ => false,
                },
            },
    {
        match r {
            Ok(v) => Ok(v),
            Err(e) => Err(Error::Credential { name: name.to_owned(), source: Box::new(e) }),
        }
    }
}

} // verus!
