use fractal_gtk::passwd::{
    delete_secret, find_attr, find_item, identity_server, migrate_old_item, pass_from_item, pass_item,
    token_from_item, token_item, SecretError,
};

fn attrs(list: &[(&str, &str)]) -> Vec<(String, String)> {
    list.iter().map(|(a, b)| (a.to_string(), b.to_string())).collect()
}

#[test]
fn secrets_to_delete() {
    let labels = vec![Some("fractal".to_string()), None, Some("other".to_string()), Some("fractal".to_string())];
    assert_eq!(delete_secret(&labels, "fractal"), vec![0, 3]);
    assert_eq!(delete_secret(&labels, ""), vec![1]);
    assert_eq!(find_item(&labels, "other"), Some(2));
    assert_eq!(find_item(&labels, "none"), None);
}

#[test]
fn stored_token() {
    let a = attrs(&[("uid", "@me:example.org")]);
    match token_from_item("tok".into(), &a) {
        Ok((t, u)) => {
            assert_eq!(t.as_deref(), Some("tok"));
            assert_eq!(u, "@me:example.org");
        }
        Err(_) => panic!("expected a token"),
    }
    match token_from_item(String::new(), &a) {
        Ok((t, _)) => assert!(t.is_none()),
        Err(_) => panic!("expected no token"),
    }
    assert!(matches!(token_from_item("tok".into(), &attrs(&[])), Err(SecretError::SecretServiceError)));
    assert!(matches!(token_from_item("tok".into(), &attrs(&[("uid", "not a user")])), Err(SecretError::IdParseError(_))));
}

#[test]
fn stored_password() {
    let a = attrs(&[("username", "me"), ("server", "https://matrix.org"), ("identity", "https://vector.im")]);
    match pass_from_item("pw".into(), &a) {
        Ok((u, p, s, i)) => {
            assert_eq!(u, "me");
            assert_eq!(p, "pw");
            assert_eq!(s, "https://matrix.org/");
            assert_eq!(i, "vector.im");
        }
        Err(_) => panic!("expected a password"),
    }
    assert!(matches!(pass_from_item("pw".into(), &attrs(&[("username", "me")])), Err(SecretError::SecretServiceError)));
    assert!(matches!(
        pass_from_item("pw".into(), &attrs(&[("username", "me"), ("server", "nope")])),
        Err(SecretError::UrlParseError(_))
    ));
    assert_eq!(find_attr(&a, "username").as_deref(), Some("me"));
}

#[test]
fn identity_servers() {
    assert_eq!(identity_server(None).ok().as_deref(), Some("vector.im"));
    assert_eq!(identity_server(Some("matrix.org".into())).ok().as_deref(), Some("matrix.org"));
    assert!(matches!(identity_server(Some("not a server!".into())), Err(SecretError::IdParseError(_))));
}

#[test]
fn migrating_old_password() {
    let a = attrs(&[("username", "me"), ("server", "https://matrix.org")]);
    match migrate_old_item("pw".into(), &a) {
        Ok((u, p, s)) => assert_eq!((u.as_str(), p.as_str(), s.as_str()), ("me", "pw", "https://matrix.org/")),
        Err(_) => panic!("expected a migration"),
    }
}

#[test]
fn stored_token_reads_back() {
    let item = token_item("@me:example.org", "tok");
    assert_eq!(item.label, "fractal-token");
    match token_from_item(item.secret, &item.attributes) {
        Ok((t, u)) => assert_eq!((t.as_deref(), u.as_str()), (Some("tok"), "@me:example.org")),
        Err(_) => panic!("expected the stored token"),
    }
    let empty = token_item("@me:example.org", "");
    assert!(matches!(token_from_item(empty.secret, &empty.attributes), Ok((None, _))));
}

#[test]
fn stored_password_reads_back() {
    let item = pass_item("me", "pw", "https://matrix.org/", "vector.im");
    assert_eq!(item.label, "fractal");
    match pass_from_item(item.secret, &item.attributes) {
        Ok((u, p, s, i)) => {
            assert_eq!((u.as_str(), p.as_str(), s.as_str(), i.as_str()), ("me", "pw", "https://matrix.org/", "vector.im"))
        }
        Err(_) => panic!("expected the stored password"),
    }
}
