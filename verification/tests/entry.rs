use monotron::entry::Entry;

#[test]
fn next_unqualified() {
    let ent = Entry::new("a", 1, None, 10);
    assert_eq!(Entry::new("a", 1, None, 11), ent.next());

    let ent = ent.next();
    assert_eq!(Entry::new("a", 1, None, 12), ent.next());

    let ent = ent.next();
    assert_eq!(Entry::new("a", 1, None, 13), ent.next());

    let ent = ent.next();
    assert_eq!(Entry::new("a", 1, None, 14), ent.next());
}

#[test]
fn next_with_token() {
    let ent = Entry::new("a", 1, None, 10);
    assert_eq!(
        Some(Entry::new("a", 1, Some("d261470109".to_string()), 11)),
        ent.next_with_token("d261470109")
    );

    let ent = if let Some(nxt) = ent.next_with_token("d261470109") { nxt } else { ent };
    assert_eq!(None, ent.next_with_token("d261470109")); // no change, same token
    assert_eq!(
        Some(Entry::new("a", 1, Some("3096048bb3".to_string()), 12)),
        ent.next_with_token("3096048bb3")
    ); // different token, inc again

    let ent = if let Some(nxt) = ent.next_with_token("3096048bb3") { nxt } else { ent };
    assert_eq!(None, ent.next_with_token("3096048bb3")); // same again
}

#[test]
fn next_keeps_key_and_creator() {
    let ent = Entry::new("counter", 7, Some("tok".to_string()), 0);
    let nxt = ent.next();
    assert_eq!(nxt.key, "counter");
    assert_eq!(nxt.creator_id, 7);
    assert_eq!(nxt.token, Some("tok".to_string()));
    assert_eq!(nxt.value, 1);
}
