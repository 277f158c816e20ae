use monotron::apikey::{
    gen_apikey, parse_apikey, root_authorization, ApiKey, Authorization, Error,
};
use monotron::scope::{Operation, Resource, Scope, Scopes};

#[test]
fn gen_apikey_shapes() {
    let (key, secret) = gen_apikey();
    assert_eq!(24, key.chars().count());
    assert_eq!(128, secret.chars().count());
    assert!(key.chars().all(|c| c.is_ascii_alphanumeric()));
    assert!(secret.chars().all(|c| c.is_ascii_alphanumeric()));
}

#[test]
fn parse_apikey_reads_basic_credentials() {
    let header = format!("Basic {}", base64::encode("user:pass"));
    let (key, secret) = parse_apikey(&header).unwrap();
    assert_eq!("user", key);
    assert_eq!("pass", secret);
}

#[test]
fn parse_apikey_trims_the_payload() {
    let header = format!("Basic  {}", base64::encode("k:s"));
    // two spaces make three parts: rejected
    let err = parse_apikey(&header).unwrap_err();
    assert!(matches!(err, Error::Unauthorized(m) if m == "Invalid authorization provided"));
}

#[test]
fn parse_apikey_rejects_missing_space() {
    let err = parse_apikey("Basic").unwrap_err();
    assert!(matches!(err, Error::Unauthorized(m) if m == "Invalid authorization provided"));
}

#[test]
fn parse_apikey_rejects_other_schemes() {
    let header = format!("Bearer {}", base64::encode("user:pass"));
    let err = parse_apikey(&header).unwrap_err();
    assert!(matches!(err, Error::Unauthorized(m) if m == "Unsupported authorization type"));
}

#[test]
fn parse_apikey_rejects_bad_base64() {
    let err = parse_apikey("Basic !!!").unwrap_err();
    assert!(matches!(err, Error::DecodeBase64Error(_)));
}

#[test]
fn parse_apikey_rejects_bad_utf8() {
    let header = format!("Basic {}", base64::encode([0xffu8, 0xfe, 0xfd]));
    let err = parse_apikey(&header).unwrap_err();
    assert!(matches!(err, Error::Utf8Error(_)));
}

#[test]
fn parse_apikey_rejects_missing_colon() {
    let header = format!("Basic {}", base64::encode("nocolon"));
    let err = parse_apikey(&header).unwrap_err();
    assert!(matches!(err, Error::Unauthorized(m) if m == "Invalid authorization data provided"));
}

#[test]
fn apikey_auth_compares_both_parts() {
    let k = ApiKey { id: 1, key: "k".to_string(), secret: "s".to_string() };
    assert!(k.auth("k", "s"));
    assert!(!k.auth("k", "x"));
    assert!(!k.auth("x", "s"));
    let k2 = k.with_id(9);
    assert_eq!(9, k2.id);
    assert_eq!("k", k2.key);
    assert_eq!("s", k2.secret);
}

#[test]
fn authorization_scope_checks() {
    let auth = Authorization {
        api_key: ApiKey { id: 1, key: "k".to_string(), secret: "s".to_string() },
        account_id: 1,
        scopes: Scopes::new(vec![Scope::parse("read,write:entry").unwrap()]),
    };
    assert!(auth.auth("k", "s"));
    assert!(!auth.auth("k", "wrong"));
    assert!(auth.allows(Operation::Read, Resource::Entry));
    assert!(!auth.allows(Operation::Delete, Resource::Entry));

    assert!(auth.assert_allows(Operation::Write, Resource::Entry).is_ok());
    let err = auth.assert_allows(Operation::Delete, Resource::Entry).unwrap_err();
    assert!(
        matches!(err, Error::Forbidden(m) if m == "read,write:entry cannot satisfy: delete:entry")
    );
}

#[test]
fn authorization_account_checks() {
    let auth = Authorization {
        api_key: ApiKey { id: 1, key: "k".to_string(), secret: "s".to_string() },
        account_id: 1,
        scopes: Scopes::new(vec![Scope::parse("read:entry").unwrap()]),
    };
    assert!(auth.assert_allows_in_account(1, Operation::Read, Resource::Entry).is_ok());
    let err = auth.assert_allows_in_account(2, Operation::Read, Resource::Entry).unwrap_err();
    assert!(matches!(err, Error::Forbidden(m) if m == "Account mismatch: 1 != 2"));
    let err = auth.assert_allows_in_account(1, Operation::Write, Resource::Entry).unwrap_err();
    assert!(matches!(err, Error::Forbidden(m) if m == "read:entry cannot satisfy: write:entry"));
}

#[test]
fn root_authorization_grants_everything() {
    let root = root_authorization("rk".to_string(), "rs".to_string());
    assert_eq!(0, root.account_id);
    assert_eq!(0, root.api_key.id);
    assert!(root.auth("rk", "rs"));
    assert!(root.allows(Operation::Delete, Resource::System));
    assert!(root.allows(Operation::Read, Resource::ACL));
    assert!(root.allows(Operation::Write, Resource::Entry));
}
