//! Logging in to the store with the workload identity of a Kubernetes
//! service account.

use vstd::prelude::*;
use vstd::string::*;
use crate::errors::Error;
use crate::http::{reply_error, reply_json, reply_value, url_cause, Method, Outcome, Request};
use crate::json::{get_member, member, Json};
use crate::vault::{join_url, joined_url};

verus! {

/// Where the service account's token is mounted.
pub const KUBERNETES_TOKEN_PATH: &'static str = "/var/run/secrets/kubernetes.io/serviceaccount/token";

/// The path under the store's address of the login endpoint `auth_path`.
pub open spec fn login_path(auth_path: Seq<char>) -> Seq<char> {
    "v1/auth/"@ + auth_path + "/login"@
}

/// `req` logs in at `url` as `role` with `jwt`: a POST of
/// `{"role": role, "jwt": jwt}`.
pub open spec fn is_login_request(req: Request, url: Seq<char>, role: Seq<char>, jwt: Seq<char>) -> bool {
    &&& req.method == Method::Post
    &&& req.url@ == url
    &&& req.headers@.len() == 1
    &&& req.headers@[0].0@ == "Connection"@
    &&& req.headers@[0].1@ == "close"@
    &&& match req.body {
        Some(Json::Object(fields)) => {
            &&& fields@.len() == 2
            &&& fields@[0].0@ == "role"@
            &&& fields@[0].1 matches Json::Str(r) && r@ == role
            &&& fields@[1].0@ == "jwt"@
            &&& fields@[1].1 matches Json::Str(j) && j@ == jwt
        },
        _ => false,
    }
}

/// The login request for `role` at the endpoint `auth_path` of the store at
/// `base`, with the service account token as read from
/// `KUBERNETES_TOKEN_PATH`.
pub fn login_request(base: &str, auth_path: &str, role: &str, jwt: Result<String, Error>) -> (r: Result<
    Request,
    Error,
>)
    ensures
        match jwt {
            Err(e0) => match r {
                Err(Error::FileRead { path, source }) => path@ == KUBERNETES_TOKEN_PATH@ && *source == e0,
                _ => false,
            },
            Ok(j) => match joined_url(base@, login_path(auth_path@)) {
                Some(u) => r is Ok && is_login_request(r->Ok_0, u, role@, j@),
                None => r matches Err(Error::UnparseableUrl(_)),
            },
        },
{
    let jwt = match jwt {
        Ok(j) => j,
        Err(e) => {
            return Err(Error::FileRead { path: KUBERNETES_TOKEN_PATH.to_owned(), source: Box::new(e) });
        },
    };
    let mut rel = "v1/auth/".to_owned();
    rel.append(auth_path);
    rel.append("/login");
    match join_url(base, rel.as_str()) {
        Ok(url) => Ok(
            Request {
                method: Method::Post,
                url,
                headers: vec![("Connection".to_owned(), "close".to_owned())],
                body: Some(
                    Json::Object(
                        vec![
                            ("role".to_owned(), Json::Str(role.to_owned())),
                            ("jwt".to_owned(), Json::Str(jwt)),
                        ],
                    ),
                ),
            },
        ),
        Err(e) => Err(Error::UnparseableUrl(e)),
    }
}

/// `auth`.
pub open spec fn auth_name() -> Seq<char> {
    seq!['a', 'u', 't', 'h']
}

/// `client_token`.
pub open spec fn client_token_name() -> Seq<char> {
    seq!['c', 'l', 'i', 'e', 'n', 't', '_', 't', 'o', 'k', 'e', 'n']
}

/// The client token of a login response: `auth.client_token`.
pub open spec fn client_token(j: Json) -> Option<Seq<char>> {
    match j {
        Json::Object(top) => match member(top@, auth_name()) {
            Some(Json::Object(auth)) => match member(auth@, client_token_name()) {
                Some(Json::Str(t)) => Some(t@),
                _ => None,
            },
            _ => None,
        },
        _ => None,
    }
}

/// The token that the reply to a login request at `url` grants.
pub fn login_token(url: &str, outcome: Outcome) -> (r: Result<String, Error>)
    ensures
        match reply_value(outcome) {
            None => reply_error(url@, outcome, r),
            Some(j) => match client_token(j) {
                Some(t) => r is Ok && r->Ok_0@ == t,
                None => match url_cause(r, url@) {
                    Some(Error::Other(_)) => true,
                    _ => false,
                },
            },
        },
{
    proof {
        reveal_strlit("auth");
        reveal_strlit("client_token");
    }
    assert("auth"@ == auth_name());
    assert("client_token"@ == client_token_name());
    let j = match reply_json(url, outcome) {
        Ok(j) => j,
        Err(e) => {
            return Err(e);
        },
    };
    let token = match &j {
        Json::Object(top) => match get_member(top, "auth") {
            Some(Json::Object(auth)) => match get_member(auth, "client_token") {
                Some(Json::Str(t)) => Some(t.clone()),
                _ => None,
            },
            _ => None,
        },
        _ => None,
    };
    match token {
        Some(t) => Ok(t),
        None => Err(
            Error::Url {
                url: url.to_owned(),
                source: Box::new(Error::Other("the response has no auth.client_token".to_owned())),
            },
        ),
    }
}

} // verus!
