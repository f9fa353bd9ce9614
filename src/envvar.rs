//! A backend that reads credentials from environment variables and local
//! files, ignoring the `Secretfile`.

use vstd::prelude::*;
use crate::env::Environment;
use crate::errors::Error;

verus! {

/// Fetches credentials from environment variables.
#[derive(Clone, Copy, Debug)]
pub struct Client;

impl Client {
    /// A new environment variable client.
    pub fn default() -> (r: Result<Client, Error>)
        ensures
            r is Ok,
    {
        Ok(Client)
    }

    /// The name of this backend.
    pub fn name(&self) -> (r: &'static str)
        ensures
            r@ == "env"@,
    {
        "env"
    }

    /// The value of the environment variable `credential`.
    pub fn var(&self, env: &Environment, credential: &str) -> (r: Result<String, Error>)
        ensures
            match env.value_of(credential@) {
                Some(v) => r is Ok && r->Ok_0@ == v,
                None => r matches Err(Error::UndefinedEnvironmentVariable { name }) && name@ == credential@,
            },
    {
        match env.get(credential) {
            Some(v) => Ok(v.clone()),
            None => Err(Error::UndefinedEnvironmentVariable { name: credential.to_owned() }),
        }
    }
}

} // verus!
