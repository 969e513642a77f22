use velos::memory::{Memory, MemoryParseError};

#[test]
fn parses_suffixes_base_1024() {
    assert_eq!("8G".parse::<Memory>().unwrap().bytes(), 8 * 1024 * 1024 * 1024);
    assert_eq!("512M".parse::<Memory>().unwrap().bytes(), 512 * 1024 * 1024);
    assert_eq!("2kb".parse::<Memory>().unwrap().bytes(), 2048);
    assert_eq!("1024".parse::<Memory>().unwrap().bytes(), 1024);
    assert_eq!("4096b".parse::<Memory>().unwrap().bytes(), 4096);
}

#[test]
fn rejects_bad_input() {
    assert_eq!("".parse::<Memory>(), Err(MemoryParseError::Empty));
    assert!("8x".parse::<Memory>().is_err());
    assert!("abc".parse::<Memory>().is_err());
}

#[test]
fn display_round_trips() {
    let m = "8G".parse::<Memory>().unwrap();
    assert_eq!(m.to_string(), "8G");
    assert_eq!(m.to_string().parse::<Memory>().unwrap(), m);
}

#[test]
fn units_are_case_insensitive_and_space_tolerant() {
    assert_eq!(Memory::parse(" 8 gb ").unwrap().bytes(), 8 * 1024 * 1024 * 1024);
    assert_eq!(Memory::parse("3MB").unwrap().bytes(), 3 * 1024 * 1024);
    assert_eq!(Memory::parse("5K").unwrap().bytes(), 5 * 1024);
    assert_eq!(Memory::parse("+7").unwrap().bytes(), 7);
}

#[test]
fn zero_quantities_are_invalid() {
    assert_eq!(Memory::parse("0"), Err(MemoryParseError::Invalid("0".to_string())));
    assert_eq!(Memory::parse("0G"), Err(MemoryParseError::Invalid("0G".to_string())));
    assert_eq!("0kb".parse::<Memory>(), Err(MemoryParseError::Invalid("0kb".to_string())));
    assert_eq!(Memory::parse(" 00 MB "), Err(MemoryParseError::Invalid(" 00 MB ".to_string())));
}

#[test]
fn whitespace_only_is_empty_and_invalid_keeps_text() {
    assert_eq!(Memory::parse("   "), Err(MemoryParseError::Empty));
    assert_eq!(Memory::parse("G"), Err(MemoryParseError::Invalid("G".to_string())));
    assert_eq!(Memory::parse("-1"), Err(MemoryParseError::Invalid("-1".to_string())));
    assert_eq!(Memory::parse("1.5G"), Err(MemoryParseError::Invalid("1.5G".to_string())));
}

#[test]
fn overflow_is_invalid() {
    assert!(Memory::parse("18446744073709551615").is_ok());
    assert_eq!(
        Memory::parse("18446744073709551616"),
        Err(MemoryParseError::Invalid("18446744073709551616".to_string()))
    );
    assert_eq!(
        Memory::parse("17179869184G"),
        Err(MemoryParseError::Invalid("17179869184G".to_string()))
    );
}

#[test]
fn text_uses_largest_exact_unit() {
    assert_eq!(Memory::from_bytes(0).to_string(), "0");
    assert_eq!(Memory::from_bytes(1023).to_string(), "1023");
    assert_eq!(Memory::from_bytes(1024).to_string(), "1K");
    assert_eq!(Memory::from_bytes(1536 * 1024).to_string(), "1536K");
    assert_eq!(Memory::from_bytes(3 * 1024 * 1024).to_string(), "3M");
    assert_eq!(Memory::from_bytes(2 * 1024 * 1024 * 1024).to_string(), "2G");
}

#[test]
fn every_text_reads_back() {
    for b in [1u64, 1023, 1024, 1025, 1048576, 5 * 1073741824, u64::MAX, u64::MAX - 1023] {
        let m = Memory::from_bytes(b);
        assert_eq!(Memory::parse(&m.to_string()).unwrap(), m);
    }
}
