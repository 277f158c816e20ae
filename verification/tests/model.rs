use monotron::account::Account;
use monotron::attrs::Attrs;
use monotron::config::Config;
use monotron::text;
use monotron::update::io::{BytesIntoRead, FileIntoRead, IntoRead};

#[test]
fn attrs_hold_their_pairs() {
    let a = Attrs::new(vec![("k1".to_string(), "v1".to_string())]);
    assert_eq!(1, a.attrs.len());
    assert_eq!(("k1".to_string(), "v1".to_string()), a.attrs[0]);

    let s = Attrs::singleton("status".to_string(), "ok".to_string());
    assert_eq!(1, s.attrs.len());
    assert_eq!(("status".to_string(), "ok".to_string()), s.attrs[0]);
}

#[test]
fn account_holds_its_id() {
    assert_eq!(7, Account::new(7).id);
}

#[test]
fn config_holds_its_values() {
    let c = Config {
        db_dsn: "postgresql://localhost/x".to_string(),
        listen: 3030,
        root_api_key: None,
        root_api_secret: None,
        debug: false,
    };
    assert_eq!(3030, c.listen);
    assert!(!c.debug);
}

#[test]
fn bytes_source_resolves_to_its_buffer() {
    let src = BytesIntoRead::new(b"CREATE TABLE t (id BIGINT)".to_vec());
    assert_eq!(b"CREATE TABLE t (id BIGINT)".to_vec(), src.into_read().unwrap());
}

#[test]
fn file_source_records_its_path() {
    let src = FileIntoRead::new("./etc/db/1_first.sql");
    assert_eq!("./etc/db/1_first.sql", src.path());
}

#[test]
fn decimal_renderings() {
    assert_eq!("0", text::u64_string(0));
    assert_eq!("120", text::u64_string(120));
    assert_eq!("18446744073709551615", text::u64_string(u64::MAX));
    assert_eq!("-7", text::i64_string(-7));
    assert_eq!("-9223372036854775808", text::i64_string(i64::MIN));
    assert_eq!("9223372036854775807", text::i64_string(i64::MAX));
}

#[test]
fn quoting_escapes_quotes_and_backslashes() {
    assert_eq!("\"foo\"", text::quote_str("foo"));
    assert_eq!("\"a\\\"b\\\\c\"", text::quote_str("a\"b\\c"));
}
