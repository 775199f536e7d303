use hexyl::parse_byte_count as pbc;
use hexyl::ByteCountError;

#[test]
fn parse_byte_count() {
    assert_eq!(pbc("0"), Ok(0));
    assert_eq!(pbc("1"), Ok(1));
    assert_eq!(pbc("100"), Ok(100));
    assert_eq!(pbc("1KB"), Ok(1000));
    assert_eq!(pbc("2MB"), Ok(2000000));
    assert_eq!(pbc("3GB"), Ok(3000000000));
    assert_eq!(pbc("4TB"), Ok(4000000000000));
    assert_eq!(pbc("1k"), Ok(1024));
    assert_eq!(pbc("10K"), Ok(10240));
    assert_eq!(pbc("1M"), Ok(1048576));
    assert_eq!(pbc("1G"), Ok(1073741824));
    assert_eq!(pbc("1GiB"), Ok(1073741824));
    assert_eq!(pbc("2TiB"), Ok(2199023255552));
    assert_eq!(pbc("0xff"), Ok(255));
    assert_eq!(pbc("0xEE"), Ok(238));

    // empty string is invalid
    assert!(pbc("").is_err());
    // leading/trailing space is invalid
    assert!(pbc(" 0").is_err());
    assert!(pbc("0 ").is_err());
    // invalid suffix
    assert!(pbc("1234asdf").is_err());
    // bad numbers
    assert!(pbc("asdf1234").is_err());
    assert!(pbc("a1s2d3f4").is_err());
    // multiplication overflows u64
    assert!(pbc("20000000TiB").is_err());
}

#[test]
fn error_kinds_are_reported() {
    assert_eq!(pbc(""), Err(ByteCountError::InvalidNumeral));
    assert_eq!(pbc(" 0"), Err(ByteCountError::InvalidNumeral));
    assert_eq!(pbc("0 "), Err(ByteCountError::InvalidNumeral));
    assert_eq!(pbc("asdf1234"), Err(ByteCountError::InvalidNumeral));
    assert_eq!(pbc("99999999999999999999"), Err(ByteCountError::InvalidNumeral));
    assert_eq!(pbc("1234asdf"), Err(ByteCountError::InvalidSuffix));
    assert_eq!(pbc("1m"), Err(ByteCountError::InvalidSuffix));
    assert_eq!(pbc("1kiB"), Err(ByteCountError::InvalidSuffix));
    assert_eq!(pbc("20000000TiB"), Err(ByteCountError::Overflow));
    assert_eq!(pbc("18446744073709551616"), Err(ByteCountError::InvalidNumeral));
}

#[test]
fn hex_inputs_take_no_suffix() {
    assert_eq!(pbc("0x0"), Ok(0));
    assert_eq!(pbc("0xDEADBEEF"), Ok(0xdeadbeef));
    assert_eq!(pbc("0xffffffffffffffff"), Ok(u64::MAX));
    assert!(pbc("0x").is_err());
    assert!(pbc("0x1K").is_err());
    assert!(pbc("0x10000000000000000").is_err());
}

#[test]
fn suffix_table_is_case_sensitive() {
    assert_eq!(pbc("1b"), Ok(1));
    assert_eq!(pbc("1B"), Ok(1));
    assert_eq!(pbc("5kB"), Ok(5000));
    assert_eq!(pbc("1T"), Ok(1099511627776));
    assert_eq!(pbc("1TiB"), Ok(1099511627776));
    assert_eq!(pbc("1MiB"), Ok(1048576));
    assert_eq!(pbc("1KiB"), Ok(1024));
    assert!(pbc("1mb").is_err());
    assert!(pbc("1gB").is_err());
}
