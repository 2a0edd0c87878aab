use randgen::args::{ByteSize, ByteUnit, IntRange, Size, UnicodeEncoding, Unit, UuidVersion};
use randgen::codec::Encoding;
use randgen::parse::ParseError;

#[test]
fn byte_sizes_in_bytes() {
    assert_eq!(ByteSize { value: 7, unit: ByteUnit::B }.to_bytes(), 7);
    assert_eq!(ByteSize { value: 7, unit: ByteUnit::KB }.to_bytes(), 7_000);
    assert_eq!(ByteSize { value: 7, unit: ByteUnit::KiB }.to_bytes(), 7_168);
    assert_eq!(ByteSize { value: 7, unit: ByteUnit::MB }.to_bytes(), 7_000_000);
    assert_eq!(ByteSize { value: 7, unit: ByteUnit::MiB }.to_bytes(), 7_340_032);
    assert_eq!(ByteSize { value: 7, unit: ByteUnit::GB }.to_bytes(), 7_000_000_000);
    assert_eq!(ByteSize { value: 7, unit: ByteUnit::GiB }.to_bytes(), 7_516_192_768);
}

#[test]
fn byte_sizes_that_do_not_fit() {
    let huge = ByteSize { value: usize::MAX, unit: ByteUnit::KB };
    assert_eq!(huge.checked_to_bytes(), None);
    let fits = ByteSize { value: 3, unit: ByteUnit::MiB };
    assert_eq!(fits.checked_to_bytes(), Some(3 * 1024 * 1024));
}

#[test]
fn decimal_and_binary_units() {
    for unit in [ByteUnit::KB, ByteUnit::MB, ByteUnit::GB] {
        let size = ByteSize { value: 1, unit };
        assert!(size.is_decimal_unit());
        assert!(!size.is_binary_unit());
    }
    for unit in [ByteUnit::B, ByteUnit::KiB, ByteUnit::MiB, ByteUnit::GiB] {
        let size = ByteSize { value: 1, unit };
        assert!(!size.is_decimal_unit());
        assert!(size.is_binary_unit());
    }
}

#[test]
fn counts() {
    assert_eq!(Size { value: 3, unit: Unit::One }.get(), 3);
    assert_eq!(Size { value: 3, unit: Unit::K }.get(), 3_000);
    assert_eq!(Size { value: 3, unit: Unit::M }.get(), 3_000_000);
    assert_eq!(Size { value: 3, unit: Unit::B }.get(), 3_000_000_000);
    assert_eq!(Size { value: 3, unit: Unit::T }.get(), 3_000_000_000_000);
    assert_eq!(Size { value: usize::MAX, unit: Unit::K }.checked_get(), None);
    assert_eq!(Size { value: 2, unit: Unit::T }.checked_get(), Some(2_000_000_000_000));
}

#[test]
fn reads_byte_sizes() {
    assert_eq!(ByteSize::parse("10MB"), Ok(ByteSize { value: 10, unit: ByteUnit::MB }));
    assert_eq!(ByteSize::parse("0b"), Ok(ByteSize { value: 0, unit: ByteUnit::B }));
    assert_eq!(ByteSize::parse("007KiB"), Ok(ByteSize { value: 7, unit: ByteUnit::KiB }));
    assert_eq!(ByteSize::parse("1gib"), Ok(ByteSize { value: 1, unit: ByteUnit::GiB }));
    assert_eq!("5kB".parse::<ByteSize>(), Ok(ByteSize { value: 5, unit: ByteUnit::KB }));
}

#[test]
fn refuses_malformed_byte_sizes() {
    for text in ["", "MB", "10", "10 MB", "10Kb", "10MBs", "-1B", "1.5MB", "99999999999999999999999B"] {
        assert_eq!(ByteSize::parse(text), Err(ParseError::ValueValidation));
    }
}

#[test]
fn reads_byte_units() {
    let cases = [
        ("B", ByteUnit::B),
        ("b", ByteUnit::B),
        ("kb", ByteUnit::KB),
        ("kB", ByteUnit::KB),
        ("KB", ByteUnit::KB),
        ("kib", ByteUnit::KiB),
        ("KiB", ByteUnit::KiB),
        ("mb", ByteUnit::MB),
        ("mB", ByteUnit::MB),
        ("MB", ByteUnit::MB),
        ("mib", ByteUnit::MiB),
        ("MiB", ByteUnit::MiB),
        ("gb", ByteUnit::GB),
        ("gB", ByteUnit::GB),
        ("GB", ByteUnit::GB),
        ("gib", ByteUnit::GiB),
        ("GiB", ByteUnit::GiB),
    ];
    for (text, unit) in cases {
        assert_eq!(ByteUnit::parse(text), Ok(unit));
    }
    for text in ["", "Kb", "KIB", "TB", "bb"] {
        assert_eq!(ByteUnit::parse(text), Err(ParseError::ValueValidation));
    }
}

#[test]
fn reads_counts() {
    assert_eq!(Size::parse("250"), Ok(Size { value: 250, unit: Unit::One }));
    assert_eq!(Size::parse("3k"), Ok(Size { value: 3, unit: Unit::K }));
    assert_eq!(Size::parse("3K"), Ok(Size { value: 3, unit: Unit::K }));
    assert_eq!(Size::parse("1m"), Ok(Size { value: 1, unit: Unit::M }));
    assert_eq!(Size::parse("2B"), Ok(Size { value: 2, unit: Unit::B }));
    assert_eq!(Size::parse("4t"), Ok(Size { value: 4, unit: Unit::T }));
    assert_eq!("12M".parse::<Size>(), Ok(Size { value: 12, unit: Unit::M }));
}

#[test]
fn refuses_counts() {
    assert_eq!(Size::parse("0"), Err(ParseError::InvalidValue));
    assert_eq!(Size::parse("0k"), Err(ParseError::InvalidValue));
    assert_eq!(Size::parse("0x"), Err(ParseError::InvalidValue));
    for text in ["", "k", "5x", "5kk", "-5", "99999999999999999999999"] {
        assert_eq!(Size::parse(text), Err(ParseError::ValueValidation));
    }
}

#[test]
fn reads_count_units() {
    assert_eq!(Unit::parse(""), Ok(Unit::One));
    assert_eq!(Unit::parse("k"), Ok(Unit::K));
    assert_eq!(Unit::parse("M"), Ok(Unit::M));
    assert_eq!(Unit::parse("b"), Ok(Unit::B));
    assert_eq!(Unit::parse("T"), Ok(Unit::T));
    assert_eq!(Unit::parse("g"), Err(ParseError::ValueValidation));
}

#[test]
fn reads_ranges() {
    assert_eq!(IntRange::parse("0..99"), Ok(IntRange { min: 0, max: 99 }));
    assert_eq!(IntRange::parse("-5..+5"), Ok(IntRange { min: -5, max: 5 }));
    assert_eq!(IntRange::parse("10..-10"), Ok(IntRange { min: 10, max: -10 }));
    assert_eq!(
        IntRange::parse("-9223372036854775808..9223372036854775807"),
        Ok(IntRange { min: i64::MIN, max: i64::MAX })
    );
    assert_eq!("1..2".parse::<IntRange>(), Ok(IntRange { min: 1, max: 2 }));
}

#[test]
fn refuses_malformed_ranges() {
    for text in [
        "",
        "..",
        "1..",
        "..2",
        "1.2",
        "1...2",
        "1....2",
        "1..2..3",
        "a..b",
        "1 ..2",
        "-..1",
        "+..1",
        "9223372036854775808..1",
        "1..-9223372036854775809",
        "1..2 ",
    ] {
        assert_eq!(IntRange::parse(text), Err(ParseError::ValueValidation));
    }
}

#[test]
fn reads_uuid_versions() {
    assert_eq!(UuidVersion::parse("empty"), Ok(UuidVersion::Empty));
    assert_eq!(UuidVersion::parse("max"), Ok(UuidVersion::Max));
    for text in ["4", "v4", "ver4", "version4"] {
        assert_eq!(UuidVersion::parse(text), Ok(UuidVersion::V4));
    }
    for text in ["", "V4", "5", "nil"] {
        assert_eq!(UuidVersion::parse(text), Err(ParseError::ValueValidation));
    }
}

#[test]
fn reads_unicode_encodings() {
    for text in ["utf_8", "utf-8", "utf8", "8"] {
        assert_eq!(UnicodeEncoding::parse(text), Ok(UnicodeEncoding::Utf8));
    }
    for text in ["utf_16", "utf-16", "utf16", "16"] {
        assert_eq!(UnicodeEncoding::parse(text), Ok(UnicodeEncoding::Utf16));
    }
    for text in ["utf_32", "utf-32", "utf32", "32"] {
        assert_eq!(UnicodeEncoding::parse(text), Ok(UnicodeEncoding::Utf32));
    }
    for text in ["", "UTF-8", "utf 8", "64"] {
        assert_eq!(UnicodeEncoding::parse(text), Err(ParseError::ValueValidation));
    }
}

#[test]
fn unicode_encodings_have_names_and_targets() {
    assert_eq!(UnicodeEncoding::Utf8.name(), "UTF-8");
    assert_eq!(UnicodeEncoding::Utf16.name(), "UTF-16");
    assert_eq!(UnicodeEncoding::Utf32.name(), "UTF-32");
    assert_eq!(UnicodeEncoding::Utf8.encoding(), Encoding::Utf8);
    assert_eq!(UnicodeEncoding::Utf16.encoding(), Encoding::Utf16LE);
    assert_eq!(UnicodeEncoding::Utf32.encoding(), Encoding::Utf32LE);
}
