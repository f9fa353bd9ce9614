//! A client for a Vault-style remote secret store: where it is, which token
//! it is accessed with, how secrets are requested and decoded, and the cache
//! that fetches each secret once.

pub mod kubernetes;

use vstd::prelude::*;
use vstd::string::*;
use crate::env::Environment;
use crate::errors::Error;
use crate::http::{reply_error, reply_json, reply_value, url_cause, Method, Outcome, Request};
use crate::json::{data_name, get_member, member, string_members, string_table, Json};
use crate::secretfile::{Location, LocationView, Secretfile, SecretfileLookup};
use crate::table::{keys_sorted, lemma_sorted_insert_lookup, lemma_sorted_insert_sorted, lookup, sorted_insert, Table};

verus! {

/// The text of the URL that `url::Url::parse` makes of `text`, if it is one.
pub uninterp spec fn parsed_url(text: Seq<char>) -> Option<Seq<char>>;

/// The text of the URL that `url::Url::join` makes of `input` against the
/// URL `base`, if it is one.
pub uninterp spec fn joined_url(base: Seq<char>, input: Seq<char>) -> Option<Seq<char>>;

/// Relies on `url::Url::parse`: whether `text` is a URL, and the text it
/// serializes to.
#[verifier::external_body]
fn parse_url(text: &str) -> (r: Result<String, url::ParseError>)
    ensures
        r is Ok == parsed_url(text@) is Some,
        r is Ok ==> r->Ok_0@ == parsed_url(text@)->0,
{
    url::Url::parse(text).map(String::from)
}

/// Relies on `url::Url::join`: `input` resolved against `base`, which is
/// the text of a URL that `parse_url` produced and so parses back to it.
#[verifier::external_body]
pub(crate) fn join_url(base: &str, input: &str) -> (r: Result<String, url::ParseError>)
    ensures
        r is Ok == joined_url(base@, input@) is Some,
        r is Ok ==> r->Ok_0@ == joined_url(base@, input@)->0,
{
    match url::Url::parse(base) {
        Ok(b) => b.join(input).map(String::from),
        Err(e) => Err(e),
    }
}

/// `lease_duration`.
pub open spec fn lease_name() -> Seq<char> {
    seq!['l', 'e', 'a', 's', 'e', '_', 'd', 'u', 'r', 'a', 't', 'i', 'o', 'n']
}

/// The lease duration is absent or a whole number.
pub open spec fn lease_ok(top: Seq<(String, Json)>) -> bool {
    match member(top, lease_name()) {
        None => true,
        Some(Json::Number(Some(_))) => true,
        _ => false,
    }
}

/// The key-value bundle of a secret response: `data` is either a flat map
/// of strings, or wraps one in a `data` member of its own.
pub open spec fn secret_shape(j: Json) -> Option<Seq<(Seq<char>, Seq<char>)>> {
    match j {
        Json::Object(top) => if !lease_ok(top@) {
            None
        } else {
            match member(top@, data_name()) {
                Some(Json::Object(d)) => match string_members(d@) {
                    Some(m) => Some(m),
                    None => match member(d@, data_name()) {
                        Some(Json::Object(inner)) => string_members(inner@),
                        _ => None,
                    },
                },
                _ => None,
            }
        },
        _ => None,
    }
}

/// The key-value pairs of a secret.
#[derive(Clone, Debug)]
pub struct SecretData {
    data: Table<String>,
}

impl View for SecretData {
    type V = Seq<(Seq<char>, Seq<char>)>;

    closed spec fn view(&self) -> Self::V {
        self.data@
    }
}

impl SecretData {
    /// Keys are held in order.
    pub open spec fn wf(&self) -> bool {
        keys_sorted(self@)
    }

    /// The value held for `key`.
    pub fn get(&self, key: &str) -> (r: Option<&String>)
        ensures
            r is Some == lookup(self@, key@) is Some,
            r is Some ==> r->0@ == lookup(self@, key@)->0,
    {
        self.data.get(key)
    }

    /// The bundle of a secret response, in either of its two shapes.
    pub fn from_json(j: &Json) -> (r: Option<SecretData>)
        ensures
            r is Some == secret_shape(*j) is Some,
            r is Some ==> r->0@ == secret_shape(*j)->0 && r->0.wf(),
    {
        proof {
            reveal_strlit("data");
            reveal_strlit("lease_duration");
        }
        assert("data"@ == data_name());
        assert("lease_duration"@ == lease_name());
        let top = match j {
            Json::Object(top) => top,
            _ => {
                return None;
            },
        };
        match get_member(top, "lease_duration") {
            None => {},
            Some(Json::Number(Some(_))) => {},
            _ => {
                return None;
            },
        }
        let d = match get_member(top, "data") {
            Some(Json::Object(d)) => d,
            _ => {
                return None;
            },
        };
        match string_table(d) {
            Some(t) => {
                return Some(SecretData { data: t });
            },
            None => {},
        }
        match get_member(d, "data") {
            Some(Json::Object(inner)) => match string_table(inner) {
                Some(t) => Some(SecretData { data: t }),
                None => None,
            },
            _ => None,
        }
    }
}

/// The path under the store's address where the secret at `path` is read.
pub open spec fn secret_path(path: Seq<char>) -> Seq<char> {
    "v1/"@ + path
}

/// `req` reads a secret at `url` with `token`.
pub open spec fn is_secret_request(req: Request, url: Seq<char>, token: Seq<char>) -> bool {
    &&& req.method == Method::Get
    &&& req.url@ == url
    &&& req.body is None
    &&& req.headers@.len() == 2
    &&& req.headers@[0].0@ == "Connection"@
    &&& req.headers@[0].1@ == "close"@
    &&& req.headers@[1].0@ == "X-Vault-Token"@
    &&& req.headers@[1].1@ == token
}

/// What the value of `key` in the bundle `data` of the secret at `path`
/// resolves to.
pub open spec fn key_result(
    data: Seq<(Seq<char>, Seq<char>)>,
    path: Seq<char>,
    key: Seq<char>,
    r: Result<String, Error>,
) -> bool {
    match lookup(data, key) {
        Some(v) => r is Ok && r->Ok_0@ == v,
        None => match r {
            Err(Error::MissingKeyInSecret { secret, key: k }) => secret@ == path && k@ == key,
            _ => false,
        },
    }
}

/// A request for `loc` has to fetch a secret: it names a key in a secret
/// that the cache does not hold.
pub open spec fn needs_fetch<D>(cache: Seq<(Seq<char>, D)>, loc: Option<LocationView>) -> bool {
    match loc {
        Some(LocationView::PathWithKey(p, _)) => lookup(cache, p) is None,
        _ => false,
    }
}

/// The location, as text, if there is one.
pub open spec fn loc_view(loc: Option<&Location>) -> Option<LocationView> {
    match loc {
        Some(l) => Some(l@),
        None => None,
    }
}

/// What a client in state `c` answers for `loc`, the location found for
/// `searched_for`.
pub open spec fn resolves(c: ClientView, searched_for: Seq<char>, loc: Option<LocationView>, r: Lookup) -> bool {
    match loc {
        None => r matches Lookup::Done(Err(Error::MissingEntry { name })) && name@ == searched_for,
        Some(LocationView::Path(p)) => r matches Lookup::Done(Err(Error::MissingKeyInPath { path })) && path@ == p,
        Some(LocationView::PathWithKey(p, k)) => match lookup(c.secrets, p) {
            Some(data) => r matches Lookup::Done(res) && key_result(data, p, k, res),
            None => match joined_url(c.addr, secret_path(p)) {
                Some(u) => r matches Lookup::Fetch(f) && f.path@ == p && f.key@ == k
                    && is_secret_request(f.request, u, c.token),
                None => r matches Lookup::Done(Err(Error::UnparseableUrl(_))),
            },
        },
    }
}

/// A secret to fetch, and the key to read from it.
#[derive(Debug)]
pub struct Fetch {
    pub path: String,
    pub key: String,
    pub request: Request,
}

/// What resolving a location comes to: a result, or a secret to fetch first.
#[derive(Debug)]
pub enum Lookup {
    Done(Result<String, Error>),
    Fetch(Fetch),
}

/// A client in state `c` that takes in the reply `outcome` to `fetch`
/// answers `r` and is then in state `d`: a secret that arrived is cached
/// under its path and the key is read from it; otherwise nothing changes.
pub open spec fn receives(c: ClientView, d: ClientView, fetch: Fetch, outcome: Outcome, r: Result<String, Error>) -> bool {
    &&& d.addr == c.addr
    &&& d.token == c.token
    &&& match reply_value(outcome) {
        None => d == c && reply_error(fetch.request.url@, outcome, r),
        Some(j) => match secret_shape(j) {
            None => d == c && match url_cause(r, fetch.request.url@) {
                Some(Error::Other(_)) => true,
                _ => false,
            },
            Some(data) => d.secrets == sorted_insert(c.secrets, fetch.path@, data) && key_result(
                data,
                fetch.path@,
                fetch.key@,
                r,
            ),
        },
    }
}

/// The state of a client, as values.
pub struct ClientView {
    pub addr: Seq<char>,
    pub token: Seq<char>,
    pub secrets: Seq<(Seq<char>, Seq<(Seq<char>, Seq<char>)>)>,
}

/// A basic client for the remote store.
#[derive(Debug)]
pub struct Client {
    /// The store's address, as the text of a parsed URL.
    addr: String,
    /// The token the store is accessed with.
    token: String,
    /// Each secret fetched so far, by path.
    secrets: Table<SecretData>,
}

impl View for Client {
    type V = ClientView;

    closed spec fn view(&self) -> ClientView {
        ClientView { addr: self.addr@, token: self.token@, secrets: self.secrets@ }
    }
}

/// `VAULT_ADDR`.
pub open spec fn addr_name() -> Seq<char> {
    "VAULT_ADDR"@
}

/// The store's address, from `VAULT_ADDR`.
pub fn default_addr(env: &Environment) -> (r: Result<String, Error>)
    ensures
        match env.value_of(addr_name()) {
            Some(a) => r is Ok && r->Ok_0@ == a,
            None => r matches Err(Error::MissingVaultAddr),
        },
{
    match env.get("VAULT_ADDR") {
        Some(a) => Ok(a.clone()),
        None => Err(Error::MissingVaultAddr),
    }
}

/// The store's address from `VAULT_ADDR`, as the text of the URL it parses to.
pub fn base_url(env: &Environment) -> (r: Result<String, Error>)
    ensures
        match env.value_of(addr_name()) {
            None => r matches Err(Error::MissingVaultAddr),
            Some(a) => match parsed_url(a) {
                Some(u) => r is Ok && r->Ok_0@ == u,
                None => r matches Err(Error::UnparseableUrl(_)),
            },
        },
{
    let addr = match default_addr(env) {
        Ok(a) => a,
        Err(e) => {
            return Err(e);
        },
    };
    match parse_url(addr.as_str()) {
        Ok(u) => Ok(u),
        Err(e) => Err(Error::UnparseableUrl(e)),
    }
}

/// Where the token for the store comes from, in order of priority.
#[derive(Debug)]
pub enum TokenSource {
    /// `VAULT_TOKEN`.
    Given(String),
    /// A login with the local workload identity, under `role` at the
    /// authentication endpoint `auth_path`.
    Kubernetes { role: String, auth_path: String },
    /// The token file in the home directory.
    HomeFile,
}

/// The source of the token: `VAULT_TOKEN` when set; else a Kubernetes login
/// when `VAULT_KUBERNETES_ROLE` is set, at `VAULT_KUBERNETES_AUTH_PATH` or
/// `kubernetes`; else the token file in the home directory.
pub fn token_source(env: &Environment) -> (r: TokenSource)
    ensures
        match env.value_of("VAULT_TOKEN"@) {
            Some(t) => r matches TokenSource::Given(g) && g@ == t,
            None => match env.value_of("VAULT_KUBERNETES_ROLE"@) {
                Some(role) => r matches TokenSource::Kubernetes { role: ro, auth_path } && ro@ == role
                    && auth_path@ == match env.value_of("VAULT_KUBERNETES_AUTH_PATH"@) {
                    Some(p) => p,
                    None => "kubernetes"@,
                },
                None => r is HomeFile,
            },
        },
{
    if let Some(t) = env.get("VAULT_TOKEN") {
        return TokenSource::Given(t.clone());
    }
    match env.get("VAULT_KUBERNETES_ROLE") {
        Some(role) => {
            let auth_path = match env.get("VAULT_KUBERNETES_AUTH_PATH") {
                Some(p) => p.clone(),
                None => "kubernetes".to_owned(),
            };
            TokenSource::Kubernetes { role: role.clone(), auth_path }
        },
        None => TokenSource::HomeFile,
    }
}

/// The token from the chosen source, or the error that no token can be had.
/// The first applicable source decides: its failure is not passed over.
pub fn token_result(r: Result<String, Error>) -> (t: Result<String, Error>)
    ensures
        match r {
            Ok(_) => t == r,
            Err(e0) => match t {
                Err(Error::MissingVaultToken(e)) => *e == e0,
                _ => false,
            },
        },
{
    match r {
        Ok(t) => Ok(t),
        Err(e) => Err(Error::MissingVaultToken(Box::new(e))),
    }
}

impl Client {
    /// The cache holds each path once, in order.
    pub open spec fn wf(&self) -> bool {
        keys_sorted(self@.secrets)
    }

    /// Whether the store is configured: `VAULT_ADDR` is set.
    pub fn is_enabled(env: &Environment) -> (r: bool)
        ensures
            r == env.value_of(addr_name()) is Some,
    {
        default_addr(env).is_ok()
    }

    /// The name of this backend.
    pub fn name(&self) -> (r: &'static str)
        ensures
            r@ == "vault"@,
    {
        "vault"
    }

    /// A client of the store at `addr`, accessed with `token`, with nothing
    /// cached.
    pub fn new(addr: &str, token: String) -> (r: Result<Client, Error>)
        ensures
            match parsed_url(addr@) {
                Some(a) => r is Ok && r->Ok_0@ == (ClientView {
                    addr: a,
                    token: token@,
                    secrets: Seq::empty(),
                }) && r->Ok_0.wf(),
                None => r matches Err(Error::UnparseableUrl(_)),
            },
    {
        match parse_url(addr) {
            Ok(a) => {
                let c = Client { addr: a, token, secrets: Table::new() };
                Ok(c)
            },
            Err(e) => Err(Error::UnparseableUrl(e)),
        }
    }

    /// The request that reads the secret at `path`.
    pub fn secret_request(&self, path: &str) -> (r: Result<Request, Error>)
        ensures
            match joined_url(self@.addr, secret_path(path@)) {
                Some(u) => r is Ok && is_secret_request(r->Ok_0, u, self@.token),
                None => r matches Err(Error::UnparseableUrl(_)),
            },
    {
        let mut rel = "v1/".to_owned();
        rel.append(path);
        match join_url(self.addr.as_str(), rel.as_str()) {
            Ok(url) => Ok(
                Request {
                    method: Method::Get,
                    url,
                    headers: vec![
                        ("Connection".to_owned(), "close".to_owned()),
                        ("X-Vault-Token".to_owned(), self.token.clone()),
                    ],
                    body: None,
                },
            ),
            Err(e) => Err(Error::UnparseableUrl(e)),
        }
    }

    /// Resolves `loc`, the location found for `searched_for`: from the cache
    /// when it holds the secret, else by asking for the secret to be fetched.
    pub fn get_loc(&self, searched_for: &str, loc: Option<&Location>) -> (r: Lookup)
        requires
            self.wf(),
        ensures
            resolves(self@, searched_for@, loc_view(loc), r),
    {
        match loc {
            None => Lookup::Done(Err(Error::MissingEntry { name: searched_for.to_owned() })),
            Some(Location::Path(path)) => Lookup::Done(Err(Error::MissingKeyInPath { path: path.clone() })),
            Some(Location::PathWithKey(path, key)) => {
                match self.secrets.get(path.as_str()) {
                    Some(secret) => Lookup::Done(Self::key_value(secret, path, key)),
                    None => match self.secret_request(path.as_str()) {
                        Ok(request) => Lookup::Fetch(
                            Fetch { path: path.clone(), key: key.clone(), request },
                        ),
                        Err(e) => Lookup::Done(Err(e)),
                    },
                }
            },
        }
    }

    fn key_value(secret: &SecretData, path: &String, key: &String) -> (r: Result<String, Error>)
        ensures
            key_result(secret@, path@, key@, r),
    {
        match secret.get(key.as_str()) {
            Some(v) => Ok(v.clone()),
            None => Err(Error::MissingKeyInSecret { secret: path.clone(), key: key.clone() }),
        }
    }

    /// Takes in the reply to `fetch`, a secret that is not cached: a secret
    /// that arrives is cached under its path, and the key asked for is read
    /// from it. A cached secret is never fetched again nor replaced.
    pub fn receive(&mut self, fetch: Fetch, outcome: Outcome) -> (r: Result<String, Error>)
        requires
            old(self).wf(),
            lookup(old(self)@.secrets, fetch.path@) is None,
        ensures
            final(self).wf(),
            receives(old(self)@, final(self)@, fetch, outcome, r),
    {
        let Fetch { path, key, request } = fetch;
        let j = match reply_json(request.url.as_str(), outcome) {
            Ok(j) => j,
            Err(e) => {
                return Err(e);
            },
        };
        match SecretData::from_json(&j) {
            Some(secret) => {
                let r = Self::key_value(&secret, &path, &key);
                let ghost s = self.secrets@;
                proof {
                    lemma_sorted_insert_sorted(s, path@, secret@);
                }
                self.secrets.insert(path, secret);
                r
            },
            None => Err(
                Error::Url {
                    url: request.url,
                    source: Box::new(Error::Other("the response is not a secret".to_owned())),
                },
            ),
        }
    }

    /// Resolves the variable `credential` through its `Secretfile` entry.
    pub fn var(&self, secretfile: &Secretfile, credential: &str) -> (r: Lookup)
        requires
            self.wf(),
        ensures
            resolves(self@, credential@, lookup(secretfile@.vars, credential@), r),
    {
        let loc = secretfile.var(credential);
        self.get_loc(credential, loc)
    }

    /// Resolves the file `path` through its `Secretfile` entry.
    pub fn file(&self, secretfile: &Secretfile, path: &str) -> (r: Lookup)
        requires
            self.wf(),
        ensures
            resolves(self@, path@, lookup(secretfile@.files, path@), r),
    {
        let loc = secretfile.file(path);
        self.get_loc(path, loc)
    }
}

/// Once a reply to a fetch has brought its secret, every later request for
/// a key of that secret is answered from the cache, without a fetch.
pub proof fn lemma_fetched_secret_answers_later_keys(
    c: ClientView,
    d: ClientView,
    fetch: Fetch,
    outcome: Outcome,
    r: Result<String, Error>,
    name: Seq<char>,
    key: Seq<char>,
    l: Lookup,
)
    requires
        keys_sorted(c.secrets),
        receives(c, d, fetch, outcome, r),
        reply_value(outcome) matches Some(j) && secret_shape(j) is Some,
        resolves(d, name, Some(LocationView::PathWithKey(fetch.path@, key)), l),
    ensures
        l is Done,
{
    let data = secret_shape(reply_value(outcome)->0)->0;
    lemma_sorted_insert_lookup(c.secrets, fetch.path@, data);
    assert(lookup(d.secrets, fetch.path@) == Some(data));
}

/// Requests served one at a time against a secret cache: each names the
/// path of a secret and the bundle a fetch of it would bring. The cache
/// after them, and the paths fetched, in order.
pub open spec fn serve<D>(cache: Seq<(Seq<char>, D)>, reqs: Seq<(Seq<char>, D)>) -> (
    Seq<(Seq<char>, D)>,
    Seq<Seq<char>>,
)
    decreases reqs.len(),
{
    if reqs.len() == 0 {
        (cache, Seq::empty())
    } else {
        let before = serve(cache, reqs.drop_last());
        let p = reqs.last().0;
        if lookup(before.0, p) is None {
            (sorted_insert(before.0, p, reqs.last().1), before.1.push(p))
        } else {
            before
        }
    }
}

/// Once the secret at a path is cached, no key of it needs a fetch again.
pub proof fn lemma_cached_secret_not_fetched<D>(cache: Seq<(Seq<char>, D)>, path: Seq<char>, data: D, key: Seq<char>)
    requires
        keys_sorted(cache),
    ensures
        !needs_fetch(sorted_insert(cache, path, data), Some(LocationView::PathWithKey(path, key))),
{
    lemma_sorted_insert_lookup(cache, path, data);
    assert(lookup(sorted_insert(cache, path, data), path) == Some(data));
}

/// Requests served one at a time fetch each path at most once, and only a
/// path that was not cached to begin with; every path fetched stays cached.
pub proof fn lemma_each_path_fetched_once<D>(cache: Seq<(Seq<char>, D)>, reqs: Seq<(Seq<char>, D)>)
    requires
        keys_sorted(cache),
    ensures
        keys_sorted(serve(cache, reqs).0),
        serve(cache, reqs).1.no_duplicates(),
        forall|i: int| 0 <= i < serve(cache, reqs).1.len() ==> lookup(cache, #[trigger] serve(cache, reqs).1[i]) is None,
        forall|i: int| 0 <= i < serve(cache, reqs).1.len() ==> lookup(serve(cache, reqs).0, #[trigger] serve(cache, reqs).1[i]) is Some,
        forall|p: Seq<char>| lookup(cache, p) is Some ==> #[trigger] lookup(serve(cache, reqs).0, p) is Some,
    decreases reqs.len(),
{
    if reqs.len() > 0 {
        lemma_each_path_fetched_once(cache, reqs.drop_last());
        let before = serve(cache, reqs.drop_last());
        let p = reqs.last().0;
        if lookup(before.0, p) is None {
            lemma_sorted_insert_sorted(before.0, p, reqs.last().1);
            lemma_sorted_insert_lookup(before.0, p, reqs.last().1);
            let after = serve(cache, reqs);
            assert(after.1 == before.1.push(p));
            assert forall|i: int| 0 <= i < after.1.len() implies lookup(cache, #[trigger] after.1[i]) is None by {
                if i < before.1.len() {
                    assert(after.1[i] == before.1[i]);
                } else {
                    if lookup(cache, p) is Some {
                        assert(lookup(before.0, p) is Some);
                    }
                }
            }
            assert forall|i: int| 0 <= i < after.1.len() implies lookup(after.0, #[trigger] after.1[i]) is Some by {
                if i < before.1.len() {
                    assert(after.1[i] == before.1[i]);
                    assert(lookup(before.0, before.1[i]) is Some);
                }
            }
            assert forall|a: int, b: int| 0 <= a < b < after.1.len() implies after.1[a] != after.1[b] by {
                if b < before.1.len() {
                    assert(after.1[a] == before.1[a] && after.1[b] == before.1[b]);
                } else {
                    assert(after.1[a] == before.1[a]);
                    assert(lookup(before.0, before.1[a]) is Some);
                }
            }
        }
    }
}

} // verus!
