use cluster_monitor::parse::{FileSize, FileSizeParseError};

#[test]
fn test_parse_bytes() {
    let size = FileSize::parse("10").unwrap();
    assert_eq!(size.as_bytes(), 10);
}

#[test]
fn test_parse_kb() {
    let size = FileSize::parse("10K").unwrap();
    assert!((size.as_bytes() as f64 / 1024f64 - 10f64).abs() < 0.0000000001);
}

#[test]
fn test_parse_megabytes() {
    let size = FileSize::parse("10M").unwrap();
    assert!((size.as_bytes() as f64 / 1024f64.powi(2) - 10f64).abs() < 0.0000000001);
}

#[test]
fn test_parse_gigabytes() {
    let size = FileSize::parse("10G").unwrap();
    assert!((size.as_bytes() as f64 / 1024f64.powi(3) - 10f64).abs() < 0.0000000001);
}

#[test]
fn test_parse_terabytes() {
    let size = FileSize::parse("10T").unwrap();
    assert!((size.as_bytes() as f64 / 1024f64.powi(4) - 10f64).abs() < 0.0000000001);
}

#[test]
fn test_parse_petabytes() {
    let size = FileSize::parse("10P").unwrap();
    assert!((size.as_bytes() as f64 / 1024f64.powi(5) - 10f64).abs() < 0.0000000001);
}

#[test]
fn test_parse_invalid_suffix() {
    assert!(FileSize::parse("10X").is_err());
}

#[test]
fn test_parse_negative() {
    assert!(FileSize::parse("-321").is_err());
}

#[test]
fn test_parse_float() {
    assert!(FileSize::parse("42.1337").is_err());
}

#[test]
fn parse_gives_exact_byte_counts() {
    assert_eq!(FileSize::parse("3K").unwrap(), FileSize(3 * 1024));
    assert_eq!(FileSize::parse("3M").unwrap(), FileSize(3 * 1_048_576));
    assert_eq!(FileSize::parse("3G").unwrap(), FileSize(3 * 1_073_741_824));
    assert_eq!(FileSize::parse("0").unwrap(), FileSize(0));
    assert_eq!(FileSize::parse("+7").unwrap(), FileSize(7));
    assert_eq!(FileSize::parse("007K").unwrap(), FileSize(7 * 1024));
}

#[test]
fn parse_ignores_surrounding_white_space() {
    assert_eq!(FileSize::parse("  10 ").unwrap().as_bytes(), 10);
    assert_eq!(FileSize::parse("\t12K\n").unwrap().as_bytes(), 12 * 1024);
    assert!(FileSize::parse("1 0").is_err());
}

#[test]
fn parse_empty_is_its_own_error() {
    assert!(matches!(FileSize::parse(""), Err(FileSizeParseError::Empty)));
    assert!(matches!(FileSize::parse("   "), Err(FileSizeParseError::Empty)));
}

#[test]
fn parse_reports_invalid_numbers() {
    assert!(matches!(FileSize::parse("K"), Err(FileSizeParseError::InvalidInt(_))));
    assert!(matches!(FileSize::parse("abc"), Err(FileSizeParseError::InvalidInt(_))));
    assert!(matches!(FileSize::parse("10k"), Err(FileSizeParseError::InvalidInt(_))));
    assert!(matches!(FileSize::parse("1_0"), Err(FileSizeParseError::InvalidInt(_))));
    assert!(matches!(
        FileSize::parse("99999999999999999999999999999999999999999"),
        Err(FileSizeParseError::InvalidInt(_))
    ));
}

#[test]
fn parse_reports_sizes_beyond_usize() {
    assert!(matches!(FileSize::parse("18014398509481984K"), Err(FileSizeParseError::TooLarge)));
    assert!(matches!(FileSize::parse("18446744073709551615P"), Err(FileSizeParseError::TooLarge)));
    assert_eq!(FileSize::parse("18446744073709551615").unwrap().as_bytes(), usize::MAX);
    assert_eq!(FileSize::parse("16383P").unwrap(), FileSize(16_383 * 1_125_899_906_842_624));
    assert!(matches!(FileSize::parse("16384P"), Err(FileSizeParseError::TooLarge)));
    assert_eq!(FileSizeParseError::TooLarge.message(), "size does not fit an usize");
}

#[test]
fn constructors_scale_by_powers_of_1024() {
    assert_eq!(FileSize::from_bytes(5).as_bytes(), 5);
    assert_eq!(FileSize::from_kib(5).as_bytes(), 5 * 1024);
    assert_eq!(FileSize::from_mib(5).as_bytes(), 5 * 1024 * 1024);
    assert_eq!(FileSize::from_gib(5).as_bytes(), 5 * 1024 * 1024 * 1024);
    assert_eq!(FileSize::from_gib(0).as_bytes(), 0);
    assert_eq!(FileSize::from_tib(5).as_bytes(), 5 * 1_099_511_627_776);
    assert_eq!(FileSize::from_pib(5).as_bytes(), 5 * 1_125_899_906_842_624);
    assert_eq!(FileSize::from_pib(16_383).as_bytes(), 16_383 * 1_125_899_906_842_624);
    assert_eq!(FileSize::from_kib(usize::MAX / 1024).as_bytes(), usize::MAX - 1023);
}

#[test]
fn sizes_are_ordered_by_bytes() {
    assert!(FileSize::from_kib(1) < FileSize::from_mib(1));
    assert!(FileSize::from_bytes(1024) == FileSize::from_kib(1));
}

#[test]
fn error_messages() {
    assert_eq!(FileSizeParseError::Empty.message(), "trying to parse an empty string");
    let err = FileSize::parse("x").unwrap_err();
    assert_eq!(err.message(), "scalar part is not an usize");
    assert_eq!(err.clone().message(), "scalar part is not an usize");
}
