use credentials::chained::{self, Attempt, Backend, Fallback, Step};
use credentials::envvar;
use credentials::vault::Lookup;
use credentials::{Client, Environment, Error, Options, Secretfile};

fn env_of(pairs: &[(&str, &str)]) -> Environment {
    let mut env = Environment::new();
    for (k, v) in pairs {
        env.set(k.to_string(), v.to_string());
    }
    env
}

fn dummy_var(credential: &str) -> Result<String, Error> {
    if credential == "DUMMY" {
        Ok("dummy".to_owned())
    } else {
        Err(Error::Other("Credential not supported".into()))
    }
}

fn dummy_file(path: &str) -> Result<String, Error> {
    if path == "dummy.txt" {
        Ok("dummy2".to_owned())
    } else {
        Err(Error::Other("Credential not supported".into()))
    }
}

/// Runs a chain of the environment backend and then the dummy one.
fn chain_var(env: &Environment, name: &str) -> Result<String, Error> {
    let sf = Secretfile::read("", &Environment::new()).unwrap();
    let mut chain = chained::Client::new();
    chain.add(Backend::Env(envvar::Client::default().unwrap()));
    let count = chain.len() + 1;
    let mut fallback = Fallback::new(count);
    let mut step = fallback.first();
    loop {
        match step {
            Step::Finish(r) => return r,
            Step::Attempt(i) => {
                let outcome = if i < chain.len() {
                    match chain.var_at(i, &sf, env, name) {
                        Attempt::Resolved(Lookup::Done(r)) => r,
                        other => panic!("unexpected {:?}", other),
                    }
                } else {
                    dummy_var(name)
                };
                step = fallback.record(outcome);
            }
        }
    }
}

fn chain_file(path: &str) -> Result<String, Error> {
    let sf = Secretfile::read("", &Environment::new()).unwrap();
    let mut chain = chained::Client::new();
    chain.add(Backend::Env(envvar::Client::default().unwrap()));
    let mut fallback = Fallback::new(2);
    let mut step = fallback.first();
    loop {
        match step {
            Step::Finish(r) => return r,
            Step::Attempt(i) => {
                let outcome = if i == 0 {
                    match chain.file_at(0, &sf, path) {
                        Attempt::ReadFile => Err(Error::Io { message: format!("cannot open {}", path) }),
                        other => panic!("unexpected {:?}", other),
                    }
                } else {
                    dummy_file(path)
                };
                step = fallback.record(outcome);
            }
        }
    }
}

#[test]
fn test_chaining() {
    let env = env_of(&[("FOO_USERNAME", "user")]);
    assert_eq!("user", chain_var(&env, "FOO_USERNAME").unwrap());
    assert_eq!("dummy", chain_var(&env, "DUMMY").unwrap());
    assert!(chain_var(&env, "NOSUCHVAR").is_err());

    assert_eq!("dummy2", chain_file("dummy.txt").unwrap());
    assert!(chain_file("nosuchfile.txt").is_err());
}

#[test]
fn chain_reports_last_error() {
    let env = Environment::new();
    match chain_var(&env, "FOO") {
        Err(Error::Other(m)) => assert_eq!("Credential not supported", m),
        other => panic!("unexpected {:?}", other),
    }
    assert_eq!("dummy", chain_var(&env, "DUMMY").unwrap());
    assert!(chain_var(&env, "UNKNOWN").is_err());
}

#[test]
fn empty_chain_has_no_backend() {
    let fallback = Fallback::new(0);
    assert!(matches!(fallback.first(), Step::Finish(Err(Error::NoBackend))));
}

#[test]
fn fallback_steps() {
    let mut f = Fallback::new(3);
    assert!(matches!(f.first(), Step::Attempt(0)));
    assert!(matches!(f.record(Err(Error::NoHomeDirectory)), Step::Attempt(1)));
    assert!(matches!(f.record(Err(Error::MissingVaultAddr)), Step::Attempt(2)));
    assert!(matches!(f.record(Err(Error::NoBackend)), Step::Finish(Err(Error::NoBackend))));
    let mut g = Fallback::new(2);
    assert!(matches!(g.record(Ok("v".to_owned())), Step::Finish(Ok(ref v)) if v == "v"));
}

#[test]
fn test_var() {
    let env = env_of(&[("FOO_USERNAME", "user")]);
    let client = envvar::Client::default().unwrap();
    assert_eq!("user", client.var(&env, "FOO_USERNAME").unwrap());
    assert!(client.var(&env, "NOSUCHVAR").is_err());
    assert!(matches!(
        client.var(&env, "NOSUCHVAR"),
        Err(Error::UndefinedEnvironmentVariable { ref name }) if name == "NOSUCHVAR"
    ));
}

#[test]
fn password_from_environment_through_client() {
    let env = env_of(&[("PASSWORD", "secret")]);
    let sf = Secretfile::read("", &Environment::new()).unwrap();
    let chain = chained::Client::with_default_backends(true, None);
    let client = Client::new(sf, chain);
    assert_eq!(1, client.backend_count());
    match client.var_at(0, &env, "PASSWORD") {
        Attempt::Resolved(Lookup::Done(r)) => {
            assert_eq!("secret", Client::credential_result("PASSWORD", r).unwrap())
        }
        other => panic!("unexpected {:?}", other),
    }
    assert!(matches!(client.file_at(0, "x.txt"), Attempt::ReadFile));
}

#[test]
fn failures_name_the_credential() {
    let r = Client::credential_result("DB_PASSWORD", Err(Error::NoBackend));
    match r {
        Err(Error::Credential { name, source }) => {
            assert_eq!("DB_PASSWORD", name);
            assert!(matches!(*source, Error::NoBackend));
        }
        other => panic!("unexpected {:?}", other),
    }
    assert_eq!("x", Client::credential_result("A", Ok("x".to_owned())).unwrap());
}

#[test]
fn default_backends_follow_configuration() {
    let env_only = chained::Client::with_default_backends(false, None);
    assert_eq!(vec!["env"], env_only.names());
    let v = credentials::vault::Client::new("http://127.0.0.1:8200", "t".to_owned()).unwrap();
    let both = chained::Client::with_default_backends(true, Some(v));
    assert_eq!(vec!["env", "vault"], both.names());
    let v = credentials::vault::Client::new("http://127.0.0.1:8200", "t".to_owned()).unwrap();
    let store_only = chained::Client::with_default_backends(false, Some(v));
    assert_eq!(vec!["vault"], store_only.names());
}

#[test]
fn options_builder() {
    let (sf, over) = Options::default().into_parts();
    assert!(sf.is_none());
    assert!(over);
    let file = Secretfile::read("A b:c\n", &Environment::new()).unwrap();
    let (sf, over) = Options::default().secretfile(file).allow_override(false).into_parts();
    assert!(sf.is_some());
    assert!(!over);
}
