use bookclub::app::App;
use bookclub::constants::{Constant, DEFAULT_TITLE};
use bookclub::middlewares::{auth_method, auth_outcome, read_header, AuthMethod, AuthOutcome, HeaderValue};
use bookclub::settings::{Auth, Proxy, ProxyHeaders, Settings};

fn proxy(enabled: bool, auto_sign_up: bool) -> Proxy {
    Proxy {
        enabled,
        auto_sign_up,
        headers: ProxyHeaders { email: "X-Email".into(), name: "X-Name".into() },
    }
}

fn settings(auth: Option<Auth>) -> Settings {
    Settings { title: "Club".into(), auth }
}

#[test]
fn default_settings() {
    let s = Settings::default();
    assert_eq!(s.title, "Bookclub");
    assert!(s.auth.is_none());
    assert_eq!(Settings::title_or_default(None), "Bookclub");
    assert_eq!(Settings::title_or_default(Some(settings(None))), "Club");
}

#[test]
fn auth_method_selection() {
    assert!(matches!(auth_method(&settings(None)), AuthMethod::NotConfigured));
    let anon = settings(Some(Auth { anonymous: Some(true), proxy: Some(proxy(true, true)) }));
    assert!(matches!(auth_method(&anon), AuthMethod::Anonymous));
    let off = settings(Some(Auth { anonymous: Some(false), proxy: Some(proxy(true, false)) }));
    match auth_method(&off) {
        AuthMethod::Proxy { header_name, auto_sign_up } => {
            assert_eq!(header_name, "X-Email");
            assert!(!auto_sign_up);
        }
        _ => panic!("proxy expected"),
    }
    let disabled = settings(Some(Auth { anonymous: None, proxy: Some(proxy(false, true)) }));
    assert!(matches!(auth_method(&disabled), AuthMethod::Unknown));
    let nothing = settings(Some(Auth { anonymous: None, proxy: None }));
    assert!(matches!(auth_method(&nothing), AuthMethod::Unknown));
}

fn message(o: AuthOutcome) -> String {
    match o {
        AuthOutcome::Unauthorized { message } => message,
        _ => panic!("refusal expected"),
    }
}

#[test]
fn auth_outcomes() {
    assert_eq!(message(auth_outcome(AuthMethod::NotConfigured, HeaderValue::Missing)), "auth is not configured");
    assert_eq!(message(auth_outcome(AuthMethod::Unknown, HeaderValue::Missing)), "unknown auth method");
    assert!(matches!(auth_outcome(AuthMethod::Anonymous, HeaderValue::Missing), AuthOutcome::AnonymousUser));
    let p = |auto| AuthMethod::Proxy { header_name: "X-Email".into(), auto_sign_up: auto };
    assert_eq!(message(auth_outcome(p(true), HeaderValue::Missing)), "Auth header not found");
    assert_eq!(message(auth_outcome(p(true), HeaderValue::NotText)), "failed to convert header to a str");
    match auth_outcome(p(true), HeaderValue::Text { value: "a@b.c".into() }) {
        AuthOutcome::FindOrCreateByEmail { email } => assert_eq!(email, "a@b.c"),
        _ => panic!("sign up expected"),
    }
    match auth_outcome(p(false), HeaderValue::Text { value: "a@b.c".into() }) {
        AuthOutcome::FindByEmail { email } => assert_eq!(email, "a@b.c"),
        _ => panic!("lookup expected"),
    }
}

#[test]
fn title_constant() {
    assert_eq!(DEFAULT_TITLE, "Inkwell Collective");
    assert_eq!(Constant::title(None).to_text(), "Inkwell Collective");
    assert_eq!(Constant::title(Some("Readers".into())).value, "Readers");
}

#[test]
fn app_name_is_crate_name() {
    assert_eq!(App::app_name(), "bookclub");
}

#[test]
fn app_version_text() {
    assert_eq!(App::app_version("0.1.0", Some("abc"), Some("def")), "0.1.0 (abc)");
    assert_eq!(App::app_version("0.1.0", None, Some("def")), "0.1.0 (def)");
    assert_eq!(App::app_version("0.1.0", None, None), "0.1.0 (dev)");
}

#[test]
fn header_bytes_read_as_text() {
    assert!(matches!(read_header(None), HeaderValue::Missing));
    match read_header(Some(b"ann@example.org".to_vec())) {
        HeaderValue::Text { value } => assert_eq!(value, "ann@example.org"),
        _ => panic!("text expected"),
    }
    match read_header(Some(b"a\tb c~".to_vec())) {
        HeaderValue::Text { value } => assert_eq!(value, "a\tb c~"),
        _ => panic!("text expected"),
    }
    match read_header(Some(Vec::new())) {
        HeaderValue::Text { value } => assert_eq!(value, ""),
        _ => panic!("text expected"),
    }
    assert!(matches!(read_header(Some(vec![b'a', 0x7f])), HeaderValue::NotText));
    assert!(matches!(read_header(Some(vec![b'a', b'\n'])), HeaderValue::NotText));
    assert!(matches!(read_header(Some("é".as_bytes().to_vec())), HeaderValue::NotText));
}
