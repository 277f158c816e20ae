use monotron::scope::{Error, Operation, Resource, Scope, Scopes};

#[test]
fn format_source() {
    assert_eq!(
        "read:system".to_string(),
        Scope { ops: vec![Operation::Read], resource: Resource::System }.to_string()
    );
    assert_eq!(
        "read,write:system".to_string(),
        Scope { ops: vec![Operation::Read, Operation::Write], resource: Resource::System }
            .to_string()
    );
    assert_eq!(
        "read,write,delete:system".to_string(),
        Scope {
            ops: vec![Operation::Read, Operation::Write, Operation::Delete],
            resource: Resource::System,
        }
        .to_string()
    );
}

#[test]
fn parse_source() {
    assert_eq!(Ok(Scope::new(Operation::Read, Resource::System)), Scope::parse("read:system"));
    assert_eq!(Ok(Scope::new(Operation::Read, Resource::System)), Scope::parse("READ:SYSTEM"));
    assert_eq!(Ok(Scope::new(Operation::Read, Resource::System)), Scope::parse("read : system"));
    assert_eq!(
        Ok(Scope { ops: vec![Operation::Read, Operation::Write], resource: Resource::System }),
        Scope::parse("read,write:system")
    );
    assert_eq!(
        Ok(Scope { ops: vec![Operation::Read, Operation::Write], resource: Resource::System }),
        Scope::parse("read , write : system")
    );
    assert_eq!(
        Ok(Scope {
            ops: vec![Operation::Read, Operation::Write, Operation::Delete],
            resource: Resource::System,
        }),
        Scope::parse("read,write,delete:system")
    );
    assert_eq!(
        Ok(Scope {
            ops: vec![Operation::Read, Operation::Write, Operation::Delete],
            resource: Resource::System,
        }),
        Scope::parse(" read , write , delete : system ")
    );

    assert_eq!(Err(Error::MalformedScope("Malformed scope: \"\"".to_string())), Scope::parse(""));
    assert_eq!(
        Err(Error::MalformedScope("Malformed scope: \"foo\"".to_string())),
        Scope::parse("foo")
    );
    assert_eq!(
        Err(Error::InvalidOperation("Invalid operation: \"foo\"".to_string())),
        Scope::parse("foo:bar")
    );
    assert_eq!(
        Err(Error::InvalidResource("Invalid resource: \"bar\"".to_string())),
        Scope::parse("read:bar")
    );
    assert_eq!(
        Err(Error::InvalidOperation("Invalid operation: \"\"".to_string())),
        Scope::parse("read,:bar")
    );
    assert_eq!(
        Err(Error::InvalidOperation("Invalid operation: \"foo\"".to_string())),
        Scope::parse("read,foo:bar")
    );
    assert_eq!(
        Err(Error::InvalidResource("Invalid resource: \"bar\"".to_string())),
        Scope::parse("read,write:bar")
    );
    assert_eq!(
        Err(Error::MalformedScope("Malformed scope: \"read,write\"".to_string())),
        Scope::parse("read,write")
    );
    assert_eq!(
        Err(Error::InvalidResource("Invalid resource: \"\"".to_string())),
        Scope::parse("read,write: ")
    );
}

#[test]
fn parse_wildcard_and_entry() {
    assert_eq!(Ok(Scope::new(Operation::Every, Resource::Entry)), Scope::parse("*:entry"));
    assert_eq!(Ok(Scope::new(Operation::Delete, Resource::ACL)), Scope::parse("delete:acl"));
}

#[test]
fn scope_allows() {
    let sc = Scope::parse("read,write:entry").unwrap();
    assert!(sc.allows(Operation::Read, Resource::Entry));
    assert!(sc.allows(Operation::Write, Resource::Entry));
    assert!(!sc.allows(Operation::Delete, Resource::Entry));
    assert!(!sc.allows(Operation::Read, Resource::System));

    let every = Scope::parse("*:system").unwrap();
    assert!(every.allows(Operation::Read, Resource::System));
    assert!(every.allows(Operation::Delete, Resource::System));
    assert!(!every.allows(Operation::Delete, Resource::ACL));
}

#[test]
fn scopes_allow_any_member() {
    let scopes = Scopes::new(vec![
        Scope::parse("read:system").unwrap(),
        Scope::parse("write:entry").unwrap(),
    ]);
    assert!(scopes.allows(Operation::Read, Resource::System));
    assert!(scopes.allows(Operation::Write, Resource::Entry));
    assert!(!scopes.allows(Operation::Write, Resource::System));
    assert!(!scopes.allows(Operation::Read, Resource::Entry));
}

#[test]
fn scopes_format() {
    let scopes = Scopes::new(vec![
        Scope::parse("read:system").unwrap(),
        Scope::parse("read,write:entry").unwrap(),
    ]);
    assert_eq!("read:system; read,write:entry".to_string(), scopes.to_string());
}

#[test]
fn parse_set_first_error_wins() {
    let ok = Scope::parse_set(&vec!["read:system".to_string(), "*:acl".to_string()]).unwrap();
    assert_eq!(ok.len(), 2);
    assert_eq!(ok[0], Scope::new(Operation::Read, Resource::System));
    assert_eq!(ok[1], Scope::new(Operation::Every, Resource::ACL));

    let err = Scope::parse_set(&vec![
        "read:system".to_string(),
        "nope".to_string(),
        "foo:bar".to_string(),
    ])
    .unwrap_err();
    assert_eq!(Error::MalformedScope("Malformed scope: \"nope\"".to_string()), err);
}
