use credentials::grammar::trim;
use credentials::http::{reply_json, Method, Outcome, Response};
use credentials::json::Json;
use credentials::vault::kubernetes::{login_request, login_token, KUBERNETES_TOKEN_PATH};
use credentials::vault::{self, token_result, token_source, Client, Lookup, SecretData, TokenSource};
use credentials::{Environment, Error, Location, Secretfile};

fn env_of(pairs: &[(&str, &str)]) -> Environment {
    let mut env = Environment::new();
    for (k, v) in pairs {
        env.set(k.to_string(), v.to_string());
    }
    env
}

fn s(x: &str) -> Json {
    Json::Str(x.to_owned())
}

fn obj(fields: Vec<(&str, Json)>) -> Json {
    Json::Object(fields.into_iter().map(|(k, v)| (k.to_owned(), v)).collect())
}

fn ok_reply(json: Json) -> Outcome {
    Outcome::Received(Response { status: 200, body: String::new(), json: Ok(json) })
}

fn client() -> Client {
    Client::new("http://127.0.0.1:8200", "123".to_owned()).unwrap()
}

fn foo_secret() -> Json {
    obj(vec![
        ("data", obj(vec![("username", s("user")), ("password", s("pw"))])),
        ("lease_duration", Json::Number(Some(2592000))),
    ])
}

#[test]
fn two_keys_of_one_secret_fetch_once() {
    let mut c = client();
    let loc = Location::PathWithKey("secret/foo".to_owned(), "username".to_owned());
    let mut fetches = 0;
    let first = match c.get_loc("FOO_USERNAME", Some(&loc)) {
        Lookup::Fetch(f) => {
            fetches += 1;
            assert_eq!("http://127.0.0.1:8200/v1/secret/foo", f.request.url);
            assert_eq!(Method::Get, f.request.method);
            assert_eq!(
                vec![
                    ("Connection".to_owned(), "close".to_owned()),
                    ("X-Vault-Token".to_owned(), "123".to_owned())
                ],
                f.request.headers
            );
            c.receive(f, ok_reply(foo_secret())).unwrap()
        }
        Lookup::Done(_) => panic!("expected a fetch"),
    };
    assert_eq!("user", first);
    let loc2 = Location::PathWithKey("secret/foo".to_owned(), "password".to_owned());
    match c.get_loc("FOO_PASSWORD", Some(&loc2)) {
        Lookup::Done(r) => assert_eq!("pw", r.unwrap()),
        Lookup::Fetch(_) => fetches += 1,
    }
    assert_eq!(1, fetches);
}

#[test]
fn second_request_waits_for_cache() {
    let mut c = client();
    let a = Location::PathWithKey("secret/db".to_owned(), "username".to_owned());
    let b = Location::PathWithKey("secret/db".to_owned(), "password".to_owned());
    let fa = match c.get_loc("A", Some(&a)) {
        Lookup::Fetch(f) => f,
        _ => panic!("expected a fetch"),
    };
    let secret = obj(vec![("data", obj(vec![("username", s("u")), ("password", s("p"))]))]);
    assert_eq!("u", c.receive(fa, ok_reply(secret)).unwrap());
    assert!(matches!(c.get_loc("B", Some(&b)), Lookup::Done(Ok(ref v)) if v == "p"));
}

#[test]
fn path_without_key_never_fetches() {
    let c = client();
    let loc = Location::Path("p".to_owned());
    match c.get_loc("P", Some(&loc)) {
        Lookup::Done(Err(Error::MissingKeyInPath { path })) => assert_eq!("p", path),
        other => panic!("unexpected {:?}", other),
    }
}

#[test]
fn missing_entry_and_missing_key() {
    let mut c = client();
    assert!(matches!(
        c.get_loc("NOPE", None),
        Lookup::Done(Err(Error::MissingEntry { ref name })) if name == "NOPE"
    ));
    let loc = Location::PathWithKey("secret/foo".to_owned(), "other".to_owned());
    let f = match c.get_loc("X", Some(&loc)) {
        Lookup::Fetch(f) => f,
        _ => panic!("expected a fetch"),
    };
    match c.receive(f, ok_reply(foo_secret())) {
        Err(Error::MissingKeyInSecret { secret, key }) => {
            assert_eq!("secret/foo", secret);
            assert_eq!("other", key);
        }
        other => panic!("unexpected {:?}", other),
    }
}

#[test]
fn resolution_through_secretfile() {
    let sf = Secretfile::read("FOO secret/foo:username\n>x.pem secret/foo:password\n", &Environment::new())
        .unwrap();
    let mut c = client();
    let f = match c.var(&sf, "FOO") {
        Lookup::Fetch(f) => f,
        _ => panic!("expected a fetch"),
    };
    assert_eq!("user", c.receive(f, ok_reply(foo_secret())).unwrap());
    assert!(matches!(c.file(&sf, "x.pem"), Lookup::Done(Ok(ref v)) if v == "pw"));
    assert!(matches!(c.var(&sf, "BAR"), Lookup::Done(Err(Error::MissingEntry { .. }))));
}

#[test]
fn unsuccessful_status_keeps_cache_empty() {
    let mut c = client();
    let loc = Location::PathWithKey("secret/foo".to_owned(), "username".to_owned());
    let f = match c.get_loc("FOO", Some(&loc)) {
        Lookup::Fetch(f) => f,
        _ => panic!("expected a fetch"),
    };
    let reply = Outcome::Received(Response {
        status: 403,
        body: "  permission denied\n".to_owned(),
        json: Err("not json".to_owned()),
    });
    match c.receive(f, reply) {
        Err(Error::Url { url, source }) => {
            assert_eq!("http://127.0.0.1:8200/v1/secret/foo", url);
            match *source {
                Error::UnexpectedHttpStatus { status, body } => {
                    assert_eq!(403, status);
                    assert_eq!("permission denied", body);
                }
                other => panic!("unexpected {:?}", other),
            }
        }
        other => panic!("unexpected {:?}", other),
    }
    assert!(matches!(c.get_loc("FOO", Some(&loc)), Lookup::Fetch(_)));
}

#[test]
fn reply_errors() {
    assert!(matches!(
        reply_json("u", Outcome::Failed("refused".to_owned())),
        Err(Error::Url { ref source, .. }) if matches!(**source, Error::Other(ref m) if m == "refused")
    ));
    let undecodable = Outcome::Received(Response {
        status: 204,
        body: "x".to_owned(),
        json: Err("expected value".to_owned()),
    });
    assert!(matches!(
        reply_json("u", undecodable),
        Err(Error::Url { ref source, .. }) if matches!(**source, Error::Other(ref m) if m == "expected value")
    ));
    let fine = Outcome::Received(Response { status: 299, body: "1".to_owned(), json: Ok(Json::Number(Some(1))) });
    assert!(matches!(reply_json("u", fine), Ok(Json::Number(Some(1)))));
}

#[test]
fn secret_shapes() {
    let flat = SecretData::from_json(&obj(vec![("data", obj(vec![("k", s("v"))]))])).unwrap();
    assert_eq!(Some(&"v".to_owned()), flat.get("k"));
    let wrapped = SecretData::from_json(&obj(vec![(
        "data",
        obj(vec![
            ("data", obj(vec![("k", s("v2"))])),
            ("metadata", obj(vec![("version", Json::Number(Some(3)))])),
        ]),
    )]))
    .unwrap();
    assert_eq!(Some(&"v2".to_owned()), wrapped.get("k"));
    assert_eq!(None, wrapped.get("metadata"));
    assert!(SecretData::from_json(&obj(vec![("data", s("x"))])).is_none());
    assert!(SecretData::from_json(&obj(vec![("other", obj(vec![]))])).is_none());
    assert!(SecretData::from_json(&obj(vec![
        ("data", obj(vec![])),
        ("lease_duration", Json::Number(None))
    ]))
    .is_none());
    assert!(SecretData::from_json(&Json::Null).is_none());
    let empty = SecretData::from_json(&obj(vec![("data", obj(vec![]))])).unwrap();
    assert_eq!(None, empty.get("k"));
}

#[test]
fn reply_of_neither_shape_is_other_error() {
    let mut c = client();
    let loc = Location::PathWithKey("secret/foo".to_owned(), "k".to_owned());
    let f = match c.get_loc("FOO", Some(&loc)) {
        Lookup::Fetch(f) => f,
        _ => panic!("expected a fetch"),
    };
    match c.receive(f, ok_reply(obj(vec![("data", s("flat"))]))) {
        Err(Error::Url { url, source }) => {
            assert_eq!("http://127.0.0.1:8200/v1/secret/foo", url);
            assert!(matches!(*source, Error::Other(_)));
        }
        other => panic!("unexpected {:?}", other),
    }
    assert!(matches!(c.get_loc("FOO", Some(&loc)), Lookup::Fetch(_)));
}

#[test]
fn unparseable_address() {
    assert!(matches!(Client::new("not a url", "t".to_owned()), Err(Error::UnparseableUrl(_))));
}

#[test]
fn address_and_enabling() {
    let env = env_of(&[("VAULT_ADDR", "http://vault:8200")]);
    assert!(Client::is_enabled(&env));
    assert_eq!("http://vault:8200", vault::default_addr(&env).unwrap());
    assert!(!Client::is_enabled(&Environment::new()));
    assert!(matches!(vault::default_addr(&Environment::new()), Err(Error::MissingVaultAddr)));
}

#[test]
fn token_sources_in_priority_order() {
    let all = env_of(&[
        ("VAULT_TOKEN", "tok"),
        ("VAULT_KUBERNETES_ROLE", "role"),
    ]);
    assert!(matches!(token_source(&all), TokenSource::Given(ref t) if t == "tok"));
    let k8s = env_of(&[("VAULT_KUBERNETES_ROLE", "app")]);
    assert!(matches!(
        token_source(&k8s),
        TokenSource::Kubernetes { ref role, ref auth_path } if role == "app" && auth_path == "kubernetes"
    ));
    let k8s_path = env_of(&[("VAULT_KUBERNETES_ROLE", "app"), ("VAULT_KUBERNETES_AUTH_PATH", "k8s-east")]);
    assert!(matches!(
        token_source(&k8s_path),
        TokenSource::Kubernetes { ref auth_path, .. } if auth_path == "k8s-east"
    ));
    assert!(matches!(token_source(&Environment::new()), TokenSource::HomeFile));
    assert!(matches!(
        token_result(Err(Error::NoHomeDirectory)),
        Err(Error::MissingVaultToken(ref e)) if matches!(**e, Error::NoHomeDirectory)
    ));
    assert_eq!("t", token_result(Ok("t".to_owned())).unwrap());
}

#[test]
fn kubernetes_login() {
    let req = login_request("http://127.0.0.1:8200/", "kubernetes", "app", Ok("jwt-text".to_owned())).unwrap();
    assert_eq!(Method::Post, req.method);
    assert_eq!("http://127.0.0.1:8200/v1/auth/kubernetes/login", req.url);
    match req.body {
        Some(Json::Object(fields)) => {
            assert_eq!(2, fields.len());
            assert_eq!("role", fields[0].0);
            assert!(matches!(fields[0].1, Json::Str(ref r) if r == "app"));
            assert_eq!("jwt", fields[1].0);
            assert!(matches!(fields[1].1, Json::Str(ref j) if j == "jwt-text"));
        }
        other => panic!("unexpected {:?}", other),
    }
    match login_request("http://127.0.0.1:8200/", "kubernetes", "app", Err(Error::Io { message: "gone".to_owned() })) {
        Err(Error::FileRead { path, .. }) => assert_eq!(KUBERNETES_TOKEN_PATH, path),
        other => panic!("unexpected {:?}", other),
    }
    let reply = ok_reply(obj(vec![("auth", obj(vec![("client_token", s("s.abc"))]))]));
    assert_eq!("s.abc", login_token("u", reply).unwrap());
    let bad = ok_reply(obj(vec![("auth", obj(vec![]))]));
    assert!(matches!(
        login_token("u", bad),
        Err(Error::Url { ref source, .. }) if matches!(**source, Error::Other(_))
    ));
}

#[test]
fn trimming() {
    assert_eq!("a b", trim(" \t a b \n\u{3000}"));
    assert_eq!("", trim("  \r\n"));
    assert_eq!("", trim(""));
    assert_eq!("x", trim("x"));
}
