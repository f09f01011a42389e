use pad::decimal::to_decimal;
use pad::error::{ErrorKind, PathError};

fn dir(name: &str) -> String {
    name.to_string()
}

#[test]
fn each_failure_has_its_class() {
    assert_eq!(PathError::NotFound(dir("/a")).kind(), ErrorKind::NotFound);
    assert_eq!(PathError::AlreadyExists(dir("/a")).kind(), ErrorKind::AlreadyExists);
    assert_eq!(PathError::MissingDirectory(dir("/a")).kind(), ErrorKind::InvalidInput);
    assert_eq!(PathError::UnjoinableEntry(dir("/a:b")).kind(), ErrorKind::InvalidData);
    assert_eq!(PathError::InvalidJump(dir("x")).kind(), ErrorKind::InvalidInput);
    assert_eq!(PathError::NoHistory.kind(), ErrorKind::NotFound);
    assert_eq!(PathError::NoSuchRevision(3).kind(), ErrorKind::InvalidInput);
}

#[test]
fn each_failure_has_its_message() {
    assert_eq!(
        PathError::NotFound(dir("/a")).message(),
        "Directory `/a` not found in `$PATH`. No changes made."
    );
    assert_eq!(
        PathError::AlreadyExists(dir("/a")).message(),
        "Directory `/a` already exists in `$PATH`. Use `pad up/dn` to change priority of this directory. No changes made."
    );
    assert_eq!(
        PathError::MissingDirectory(dir("/a")).message(),
        "Directory `/a` does not exist. Please double check the directories you named."
    );
    assert_eq!(
        PathError::UnjoinableEntry(dir("/a:b")).message(),
        "Directory `/a:b` contains the separator `:`. No changes made."
    );
    assert_eq!(PathError::InvalidJump(dir("x")).message(), "JUMP must be an integer.");
    assert_eq!(PathError::NoHistory.message(), "History file not found. Nothing to revert to.");
    assert_eq!(
        PathError::NoSuchRevision(12).message(),
        "History does not contain revision 12. Please specify a smaller revision number."
    );
}

#[test]
fn numbers_are_written_in_base_ten() {
    assert_eq!(to_decimal(0), "0");
    assert_eq!(to_decimal(7), "7");
    assert_eq!(to_decimal(10), "10");
    assert_eq!(to_decimal(1905), "1905");
    assert_eq!(to_decimal(u128::MAX), "340282366920938463463374607431768211455");
    for n in [0u128, 1, 9, 10, 11, 99, 100, 101, 65535, 1 << 64, u128::MAX - 1] {
        assert_eq!(to_decimal(n), n.to_string());
    }
}

#[test]
fn a_written_number_reads_back_as_a_jump() {
    for n in [0usize, 1, 9, 10, 99, 100, 12345, usize::MAX] {
        assert_eq!(pad::path::priority::parse_jump(&to_decimal(n as u128)), Ok(n));
    }
}
