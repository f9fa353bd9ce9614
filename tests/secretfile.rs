use credentials::grammar::interpolate_env;
use credentials::{Environment, Error, Location, Secretfile, SecretfileLookup};

fn env_of(pairs: &[(&str, &str)]) -> Environment {
    let mut env = Environment::new();
    for (k, v) in pairs {
        env.set(k.to_string(), v.to_string());
    }
    env
}

#[test]
fn test_parse() {
    let data = "\
# This is a comment.

FOO_USERNAME secret/$SECRET_NAME:username\n\
FOO_PASSWORD secret/${SECRET_NAME}:password\n\

# Try a Keywhiz-style secret, too.
FOO_USERNAME2 ${SECRET_NAME}_username\n\

# Credentials to copy to a file.  Interpolation allowed on the left here.
>$SOMEDIR/.conf/key.pem secret/ssl:key_pem\n\
";
    let env = env_of(&[("SECRET_NAME", "foo"), ("SOMEDIR", "/home/foo")]);
    let secretfile = Secretfile::read(data, &env).unwrap();
    assert_eq!(
        &Location::PathWithKey("secret/foo".to_owned(), "username".to_owned()),
        secretfile.var("FOO_USERNAME").unwrap()
    );
    assert_eq!(
        &Location::PathWithKey("secret/foo".to_owned(), "password".to_owned()),
        secretfile.var("FOO_PASSWORD").unwrap()
    );
    assert_eq!(
        &Location::Path("foo_username".to_owned()),
        secretfile.var("FOO_USERNAME2").unwrap()
    );
    assert_eq!(
        &Location::PathWithKey("secret/ssl".to_owned(), "key_pem".to_owned()),
        secretfile.file("/home/foo/.conf/key.pem").unwrap()
    );

    assert_eq!(
        vec!["FOO_PASSWORD", "FOO_USERNAME", "FOO_USERNAME2"],
        secretfile.vars().into_vec()
    );
    assert_eq!(vec!["/home/foo/.conf/key.pem"], secretfile.files().into_vec());
}

#[test]
fn interpolated_path_with_key() {
    let env = env_of(&[("X", "bar")]);
    let sf = Secretfile::read("FOO_USERNAME secret/$X:username", &env).unwrap();
    assert_eq!(
        Some(&Location::PathWithKey("secret/bar".to_owned(), "username".to_owned())),
        sf.var("FOO_USERNAME")
    );
}

#[test]
fn undefined_variable_is_named() {
    let env = env_of(&[("Y", "1")]);
    let r = Secretfile::read("FOO secret/$NOPE_VAR:key\n", &env);
    match r {
        Err(Error::Secretfile(inner)) => match *inner {
            Error::UndefinedEnvironmentVariable { name } => assert_eq!("NOPE_VAR", name),
            other => panic!("unexpected {:?}", other),
        },
        other => panic!("unexpected {:?}", other),
    }
}

#[test]
fn undefined_file_variable_is_named() {
    let env = Environment::new();
    let r = Secretfile::read(">${HOME_DIR}/x secret/a:b\n", &env);
    assert!(matches!(
        r,
        Err(Error::Secretfile(ref e)) if matches!(**e, Error::UndefinedEnvironmentVariable { ref name } if name == "HOME_DIR")
    ));
}

#[test]
fn last_undefined_variable_is_named() {
    let env = Environment::new();
    let r = interpolate_env("$A/${B}", &env);
    assert!(matches!(r, Err(Error::UndefinedEnvironmentVariable { ref name }) if name == "B"));
}

#[test]
fn interpolation_forms() {
    let env = env_of(&[("A", "x"), ("AB", "y")]);
    assert_eq!("y-x-x1", interpolate_env("$AB-${A}-${A}1", &env).unwrap());
    assert_eq!("$ ${ $1 ${A", interpolate_env("$ ${ $1 ${A", &env).unwrap());
    assert_eq!("", interpolate_env("", &env).unwrap());
}

#[test]
fn bad_line_is_reported_verbatim() {
    let env = Environment::new();
    for line in ["  FOO secret/a", "FOO", "FOO a b", "FOO-BAR a", "> a", "9FOO a"] {
        let text = format!("{}\n", line);
        match Secretfile::read(&text, &env) {
            Err(Error::Secretfile(inner)) => match *inner {
                Error::Parse { input } => assert_eq!(line, input),
                other => panic!("unexpected {:?}", other),
            },
            other => panic!("unexpected {:?} for {:?}", other, line),
        }
    }
}

#[test]
fn blank_lines_comments_and_crlf() {
    let env = Environment::new();
    let sf = Secretfile::read("\r\n  \t\n   # note\r\nA p:k  \r\nB q\n", &env).unwrap();
    assert_eq!(Some(&Location::PathWithKey("p".to_owned(), "k".to_owned())), sf.var("A"));
    assert_eq!(Some(&Location::Path("q".to_owned())), sf.var("B"));
    assert_eq!(None, sf.var("C"));
    assert_eq!(None, sf.file("A"));
}

#[test]
fn path_and_key_split_at_first_colon_with_key() {
    let env = Environment::new();
    let sf = Secretfile::read("A a:b:c\nB :x\nC a:\n", &env).unwrap();
    assert_eq!(Some(&Location::PathWithKey("a".to_owned(), "b:c".to_owned())), sf.var("A"));
    assert_eq!(Some(&Location::Path(":x".to_owned())), sf.var("B"));
    assert_eq!(Some(&Location::Path("a:".to_owned())), sf.var("C"));
}

#[test]
fn later_entry_replaces_earlier() {
    let env = Environment::new();
    let sf = Secretfile::read("A one:k\nA two:k\n", &env).unwrap();
    assert_eq!(Some(&Location::PathWithKey("two".to_owned(), "k".to_owned())), sf.var("A"));
    assert_eq!(vec!["A"], sf.vars().into_vec());
}

#[test]
fn empty_text_has_no_entries() {
    let sf = Secretfile::read("", &Environment::new()).unwrap();
    assert!(sf.vars().into_vec().is_empty());
    assert!(sf.files().into_vec().is_empty());
    assert_eq!("", sf.to_text());
}

#[test]
fn written_text_reads_back() {
    let env = env_of(&[("SECRET_NAME", "foo")]);
    let text = "# c\nZED secret/$SECRET_NAME:password\nALPHA plain\n>/etc/key.pem secret/ssl:key_pem\n";
    let sf = Secretfile::read(text, &env).unwrap();
    let written = sf.to_text();
    assert_eq!(
        "ALPHA plain\nZED secret/foo:password\n>/etc/key.pem secret/ssl:key_pem\n",
        written
    );
    let again = Secretfile::read(&written, &Environment::new()).unwrap();
    assert_eq!(written, again.to_text());
    assert_eq!(sf.var("ZED"), again.var("ZED"));
    assert_eq!(sf.var("ALPHA"), again.var("ALPHA"));
    assert_eq!(sf.file("/etc/key.pem"), again.file("/etc/key.pem"));
}

#[test]
fn keys_are_handed_out_one_at_a_time() {
    let sf = Secretfile::read("B x\nA y\n", &Environment::new()).unwrap();
    let mut keys = sf.vars();
    assert_eq!(Some("A".to_owned()), keys.next());
    assert_eq!(Some("B".to_owned()), keys.next());
    assert_eq!(None, keys.next());
}

#[test]
fn unicode_spaces_separate_fields() {
    let env = Environment::new();
    let sf = Secretfile::read("A\u{3000}p:k\u{a0}\n", &env).unwrap();
    assert_eq!(Some(&Location::PathWithKey("p".to_owned(), "k".to_owned())), sf.var("A"));
}
