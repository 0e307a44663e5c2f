use fractal_gtk::widgets::login::{
    homeserver_url_text, login_homeserver, login_servers, well_known_servers, LoginError,
};

#[test]
fn typed_homeserver_becomes_a_url() {
    assert_eq!(homeserver_url_text("  matrix.org \n"), "https://matrix.org/");
    assert_eq!(homeserver_url_text("http://x.org"), "http://x.org/");
    assert_eq!(homeserver_url_text("https://x.org/"), "https://x.org/");
    assert_eq!(homeserver_url_text(""), "https://");
}

#[test]
fn login_needs_credentials_and_a_url() {
    assert_eq!(login_homeserver("me", "pw", " matrix.org ").ok().as_deref(), Some("https://matrix.org/"));
    assert!(matches!(login_homeserver("", "pw", "matrix.org"), Err(LoginError::MissingCredentials)));
    assert!(matches!(login_homeserver("me", "", "nope nope"), Err(LoginError::MissingCredentials)));
    assert!(matches!(login_homeserver("me", "pw", "http://[bad"), Err(LoginError::MalformedUrl)));
}

#[test]
fn well_known_answer_used_when_valid() {
    let fb = || "https://typed.org/".to_string();
    assert_eq!(
        well_known_servers("https://hs.org", Some("https://id.org"), fb()),
        ("https://hs.org/".to_string(), "id.org".to_string())
    );
    assert_eq!(well_known_servers("https://hs.org", None, fb()), ("https://hs.org/".to_string(), "vector.im".to_string()));
    assert_eq!(well_known_servers("nope", None, fb()), (fb(), "vector.im".to_string()));
    assert_eq!(well_known_servers("https://hs.org", Some("nope"), fb()), (fb(), "vector.im".to_string()));
    assert_eq!(
        well_known_servers("https://hs.org", Some("mailto:a@b"), fb()),
        ("https://hs.org/".to_string(), "vector.im".to_string())
    );
}

#[test]
fn failed_well_known_request_falls_back() {
    let fb = "https://typed.org/".to_string();
    assert_eq!(login_servers(None, fb.clone()), (fb.clone(), "vector.im".to_string()));
    assert_eq!(
        login_servers(Some(("https://hs.org".into(), None)), fb),
        ("https://hs.org/".to_string(), "vector.im".to_string())
    );
}
