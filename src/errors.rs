//! The errors of this library.

use vstd::prelude::*;

verus! {

#[verifier::external_type_specification]
#[verifier::external_body]
pub struct ExUrlParseError(url::ParseError);

/// An error returned by this library.
#[derive(Debug)]
pub enum Error {
    /// Could not access a secure credential.
    Credential {
        /// The name of the credential we couldn't access.
        name: String,
        /// The reason why we couldn't access it.
        source: Box<Error>,
    },
    /// Could not read a file.
    FileRead {
        /// The file we couldn't access.
        path: String,
        /// The reason why we couldn't access it.
        source: Box<Error>,
    },
    /// An invalid URL.
    InvalidUrl {
        /// The invalid URL.
        url: String,
    },
    /// An error occurred doing I/O.
    Io {
        /// What the operating system reported.
        message: String,
    },
    /// Data that is not the JSON expected.
    Json {
        /// What was wrong with it.
        message: String,
    },
    /// Missing entry in the `Secretfile`.
    MissingEntry {
        /// The name of the entry.
        name: String,
    },
    /// A location that lacks the `:key` component this store needs.
    MissingKeyInPath {
        /// The path without a key.
        path: String,
    },
    /// A secret without a value for the key asked for.
    MissingKeyInSecret {
        /// The path of the secret.
        secret: String,
        /// The key for which it has no value.
        key: String,
    },
    /// The remote store's address is not configured.
    MissingVaultAddr,
    /// No token for the remote store could be obtained.
    MissingVaultToken(Box<Error>),
    /// No backend is available.
    NoBackend,
    /// The home directory cannot be found.
    NoHomeDirectory,
    /// A path that cannot be represented as Unicode.
    NonUnicodePath {
        /// The path, as far as it can be shown.
        path: String,
    },
    /// A line that the `Secretfile` grammar does not accept.
    Parse {
        /// The line.
        input: String,
    },
    /// Another kind of error, described in words.
    Other(String),
    /// The `Secretfile` cannot be read.
    Secretfile(Box<Error>),
    /// An environment variable that is not defined.
    UndefinedEnvironmentVariable {
        /// The name of the variable.
        name: String,
    },
    /// An HTTP status other than success.
    UnexpectedHttpStatus {
        /// The status received.
        status: u16,
        /// The body received, without surrounding whitespace.
        body: String,
    },
    /// A URL that cannot be parsed.
    UnparseableUrl(url::ParseError),
    /// A URL that could not be accessed.
    Url {
        /// The URL.
        url: String,
        /// The reason it could not be accessed.
        source: Box<Error>,
    },
}

} // verus!
