use monotron::update::driver::mock;
use monotron::update::error::Error;
use monotron::update::io::BytesIntoRead;
use monotron::update::provider::{arrange, ConstantProvider};
use monotron::update::version::{parse_name, Version};
use monotron::update::Upgrader;

fn units() -> Vec<Version<BytesIntoRead>> {
    vec![
        Version::new_with_bytes(1, b"1".to_vec()).unwrap(),
        Version::new_with_bytes(2, b"2".to_vec()).unwrap(),
        Version::new_with_bytes(3, b"3".to_vec()).unwrap(),
    ]
}

#[test]
fn upgrade_success() {
    let d = mock::Driver::new(0, None);
    let v = units();

    let p = ConstantProvider::new(v);
    let u = Upgrader::new(d, p).unwrap();
    assert_eq!(0, u.current_version().unwrap());
    assert_eq!(3, u.latest_version().unwrap());

    assert_eq!(vec![1, 2], u.upgrade(2).unwrap()); // mock driver doesn't update state
    assert_eq!(vec![1, 2, 3], u.upgrade_latest().unwrap());
}

#[test]
fn upgrade_failure() {
    let errmsg = "upgrade failed";
    let d = mock::Driver::new(0, Some(errmsg));
    let v = units();

    let p = ConstantProvider::new(v);
    let u = Upgrader::new(d, p).unwrap();

    let err = match u.upgrade(2) {
        Ok(_) => panic!("Expected an error"),
        Err(err) => err,
    };

    println!("*** {}", err.to_string());
    assert_eq!(
        Error::UpgradeError(1, "1B".to_string(), errmsg.to_string()).to_string(),
        err.to_string()
    );
}

#[test]
fn upgrade_applies_only_the_delta() {
    // Current version 0: an upgrade to 2 applies exactly 1 and 2; with the
    // version then at 2, the rest is exactly 3.
    let u = Upgrader::new(mock::Driver::new(0, None), ConstantProvider::new(units())).unwrap();
    assert_eq!(vec![1, 2], u.upgrade(2).unwrap());

    let u = Upgrader::new(mock::Driver::new(2, None), ConstantProvider::new(units())).unwrap();
    assert_eq!(vec![3], u.upgrade_latest().unwrap());
}

#[test]
fn upgrade_at_or_below_current_is_a_no_op() {
    let u = Upgrader::new(mock::Driver::new(5, None), ConstantProvider::new(units())).unwrap();
    assert_eq!(Vec::<usize>::new(), u.upgrade(3).unwrap());
    let u = Upgrader::new(mock::Driver::new(3, None), ConstantProvider::new(units())).unwrap();
    assert_eq!(Vec::<usize>::new(), u.upgrade(3).unwrap());
}

#[test]
fn upgrade_failure_names_first_pending_ordinal() {
    // Ordinal 1 is already applied; applying 2 fails; the error carries 2
    // and the current version still reads 1.
    let pending = vec![
        Version::new_with_bytes(2, b"bb".to_vec()).unwrap(),
        Version::new_with_bytes(3, b"ccc".to_vec()).unwrap(),
    ];
    let u = Upgrader::new(mock::Driver::new(1, Some("boom")), ConstantProvider::new(pending))
        .unwrap();
    let err = u.upgrade(3).unwrap_err();
    assert_eq!(
        Error::UpgradeError(2, "2B".to_string(), "boom".to_string()).to_string(),
        err.to_string()
    );
    assert_eq!(1, u.current_version().unwrap());
}

#[test]
fn upgrade_skips_already_committed() {
    // With the current version at 1, ordinal 1 is never handed to the
    // driver again: an always-failing driver only trips on 2.
    let u = Upgrader::new(mock::Driver::new(1, Some("boom")), ConstantProvider::new(units()))
        .unwrap();
    let err = u.upgrade(3).unwrap_err();
    assert_eq!(
        Error::UpgradeError(2, "1B".to_string(), "boom".to_string()).to_string(),
        err.to_string()
    );
}

#[test]
fn arrange_orders_contiguous_sets() {
    let shuffled = vec![
        Version::new_with_bytes(2, b"bb".to_vec()).unwrap(),
        Version::new_with_bytes(3, b"ccc".to_vec()).unwrap(),
        Version::new_with_bytes(1, b"a".to_vec()).unwrap(),
    ];
    let out = arrange(shuffled).unwrap();
    let ords: Vec<usize> = out.iter().map(|v| v.version()).collect();
    assert_eq!(vec![1, 2, 3], ords);
    let labels: Vec<String> = out.iter().map(|v| v.description()).collect();
    assert_eq!(vec!["1B".to_string(), "2B".to_string(), "3B".to_string()], labels);
}

#[test]
fn arrange_accepts_the_empty_set() {
    let none: Vec<Version<BytesIntoRead>> = Vec::new();
    assert_eq!(0, arrange(none).unwrap().len());
}

#[test]
fn arrange_rejects_a_gap() {
    let gapped = vec![
        Version::new_with_bytes(1, b"a".to_vec()).unwrap(),
        Version::new_with_bytes(3, b"ccc".to_vec()).unwrap(),
    ];
    let err = arrange(gapped).unwrap_err();
    assert_eq!(Error::SequenceError(2, 3).to_string(), err.to_string());
}

#[test]
fn arrange_rejects_a_start_above_one() {
    let late = vec![Version::new_with_bytes(2, b"bb".to_vec()).unwrap()];
    let err = arrange(late).unwrap_err();
    assert_eq!(Error::SequenceError(1, 2).to_string(), err.to_string());
}

#[test]
fn arrange_rejects_a_gap_after_a_run() {
    let gapped = vec![
        Version::new_with_bytes(1, b"a".to_vec()).unwrap(),
        Version::new_with_bytes(2, b"bb".to_vec()).unwrap(),
        Version::new_with_bytes(4, b"dddd".to_vec()).unwrap(),
    ];
    let err = arrange(gapped).unwrap_err();
    assert_eq!(Error::SequenceError(3, 4).to_string(), err.to_string());
}

#[test]
fn arrange_rejects_duplicate_ordinals() {
    // "1.sql" and "01.sql" both carry ordinal 1 and must be rejected by
    // the contiguity check.
    let a = Version::new_with_path(parse_name("1.sql").unwrap().unwrap(), "1.sql").unwrap();
    let b = Version::new_with_path(parse_name("01.sql").unwrap().unwrap(), "01.sql").unwrap();
    let err = arrange(vec![a, b]).unwrap_err();
    assert_eq!(Error::SequenceError(2, 1).to_string(), err.to_string());
}

#[test]
fn parse_name_reads_the_leading_digits() {
    assert_eq!(Some(1), parse_name("1_first.sql").unwrap());
    assert_eq!(Some(3), parse_name("003_third.sql").unwrap());
    assert_eq!(Some(12), parse_name("12.sql").unwrap());
}

#[test]
fn parse_name_skips_other_files() {
    assert_eq!(None, parse_name("README.md").unwrap());
    assert_eq!(None, parse_name("abc.sql").unwrap());
    assert_eq!(None, parse_name("nodot").unwrap());
    assert_eq!(None, parse_name(".sql").unwrap());
}

#[test]
fn parse_name_rejects_an_oversized_ordinal() {
    let err = parse_name("99999999999999999999999999_huge.sql").unwrap_err();
    match err {
        Error::ParseError(m) => {
            assert_eq!(
                "Could not parse version from file name \"99999999999999999999999999_huge.sql\"",
                m
            );
        }
        other => panic!("expected a parse error, got {:?}", other),
    }
}

#[test]
fn version_labels_come_from_file_names() {
    let v = Version::new_with_path(1, "./etc/db/1_first.sql").unwrap();
    assert_eq!(1, v.version());
    assert_eq!("1_first.sql".to_string(), v.description());

    let err = Version::new_with_path(1, "etc/db/").unwrap_err();
    assert_eq!("Invalid version: No file name", err.to_string());
}

#[test]
fn error_texts() {
    assert_eq!("Driver error: down", Error::DriverError("down".to_string()).to_string());
    assert_eq!("no such directory", Error::IOError("no such directory".to_string()).to_string());
    assert_eq!("channel closed", Error::ChannelError("channel closed".to_string()).to_string());
    assert_eq!(
        "Invalid version sequence; expected: 2, found: 3",
        Error::SequenceError(2, 3).to_string()
    );
    assert_eq!(
        "Could not upgrade to version #7 [7_x.sql]: nope",
        Error::UpgradeError(7, "7_x.sql".to_string(), "nope".to_string()).to_string()
    );
}
