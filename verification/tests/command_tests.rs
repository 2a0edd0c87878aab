use randgen::alphabet::Universe;
use randgen::args::{ByteSize, ByteUnit, IntRange, Size, UnicodeEncoding, Unit, UuidVersion};
use randgen::codec::Encoding;
use randgen::command::Command;
use randgen::error::{ConfigIssue, GenError};
use randgen::items::ScalarKind;
use randgen::progress::Meter;

fn ascii(size: Option<ByteSize>) -> Command {
    Command::Ascii {
        size,
        charset: None,
        printable_only: false,
        exclude: None,
        exclude_codes: None,
        threads: None,
        buf_size: None,
        progress: false,
    }
}

#[test]
fn integers_default_to_zero_to_ninety_nine() {
    let command = Command::Int {
        range: None,
        amount: Some(Size { value: 2, unit: Unit::K }),
        threads: Some(3),
        buf_size: Some(Size { value: 10, unit: Unit::One }),
        progress: true,
    };
    let order = command.into_order(false, 8).unwrap();
    assert_eq!(order.request.items, ScalarKind::Int { min: 0, max: 99 });
    assert_eq!(order.request.total, Some(2000));
    assert_eq!(order.request.worker_count, 3);
    assert_eq!(order.request.buffer_capacity, Some(10));
    assert_eq!(order.request.encoding, Encoding::ScalarStream);
    assert!(!order.request.streaming);
    assert_eq!(order.meter, Some(Meter::Items));
}

#[test]
fn a_range_is_taken_as_given() {
    let command = Command::Int {
        range: Some(IntRange { min: -7, max: 7 }),
        amount: None,
        threads: None,
        buf_size: None,
        progress: true,
    };
    let order = command.into_order(true, 8).unwrap();
    assert_eq!(order.request.items, ScalarKind::Int { min: -7, max: 7 });
    assert_eq!(order.request.total, None);
    assert_eq!(order.request.worker_count, 8);
    assert!(order.request.streaming);
    assert_eq!(order.meter, None);
}

#[test]
fn uuids_default_to_version_four() {
    let command =
        Command::Uuid { version: None, amount: None, threads: None, buf_size: None, progress: false };
    let order = command.into_order(false, 2).unwrap();
    assert_eq!(order.request.items, ScalarKind::Uuid(UuidVersion::V4));
    assert!(!order.request.streaming);
    let command = Command::Uuid {
        version: Some(UuidVersion::Max),
        amount: None,
        threads: None,
        buf_size: None,
        progress: false,
    };
    assert_eq!(
        command.into_order(false, 2).unwrap().request.items,
        ScalarKind::Uuid(UuidVersion::Max)
    );
}

#[test]
fn url_resources() {
    let url = |resource| Command::Url {
        length: Some(4),
        resource,
        query: true,
        amount: None,
        threads: None,
        buf_size: None,
        progress: false,
    };
    let items = |resource| url(resource).into_order(false, 1).unwrap().request.items;
    assert_eq!(items(None), ScalarKind::Url { length: Some(4), segments: None, query: true });
    assert_eq!(items(Some(None)), ScalarKind::Url { length: Some(4), segments: Some(1), query: true });
    assert_eq!(
        items(Some(Some(3))),
        ScalarKind::Url { length: Some(4), segments: Some(3), query: true }
    );
}

#[test]
fn ascii_text() {
    let command = Command::Ascii {
        size: Some(ByteSize { value: 2, unit: ByteUnit::KB }),
        charset: Some("abc".to_string()),
        printable_only: true,
        exclude: Some("c".to_string()),
        exclude_codes: Some(vec![97]),
        threads: Some(2),
        buf_size: Some(ByteSize { value: 1, unit: ByteUnit::KiB }),
        progress: true,
    };
    let order = command.into_order(true, 16).unwrap();
    let request = order.request;
    assert_eq!(request.encoding, Encoding::RawByte);
    assert_eq!(request.total, Some(2000));
    assert_eq!(request.buffer_capacity, Some(1024));
    assert_eq!(request.worker_count, 2);
    assert!(!request.streaming);
    assert_eq!(request.alphabet_spec.universe, Universe::AsciiPrintable);
    assert_eq!(request.alphabet_spec.charset, Some("abc".to_string()));
    assert_eq!(request.alphabet_spec.exclude, Some("c".to_string()));
    assert_eq!(request.alphabet_spec.exclude_codes, Some(vec![97]));
    assert_eq!(order.meter, Some(Meter::DecimalBytes));
}

#[test]
fn ascii_streams_in_daemon_mode_without_size() {
    let order = ascii(None).into_order(true, 4).unwrap();
    assert!(order.request.streaming);
    assert_eq!(order.request.total, None);
    assert_eq!(order.request.alphabet_spec.universe, Universe::AsciiFull);
    assert_eq!(order.meter, None);
    let order = ascii(None).into_order(false, 4).unwrap();
    assert!(!order.request.streaming);
}

#[test]
fn the_meter_follows_the_unit_of_the_size() {
    let meter = |unit| {
        let mut command = ascii(Some(ByteSize { value: 1, unit }));
        if let Command::Ascii { progress, .. } = &mut command {
            *progress = true;
        }
        command.into_order(false, 1).unwrap().meter
    };
    assert_eq!(meter(ByteUnit::B), Some(Meter::BinaryBytes));
    assert_eq!(meter(ByteUnit::MiB), Some(Meter::BinaryBytes));
    assert_eq!(meter(ByteUnit::MB), Some(Meter::DecimalBytes));
}

#[test]
fn unicode_text() {
    let command = Command::Unicode {
        size: Some(ByteSize { value: 64, unit: ByteUnit::B }),
        encoding: UnicodeEncoding::Utf16,
        charset: None,
        exclude: Some("x".to_string()),
        threads: None,
        buf_size: None,
        progress: false,
    };
    let order = command.into_order(false, 6).unwrap();
    assert_eq!(order.request.encoding, Encoding::Utf16LE);
    assert_eq!(order.request.total, Some(64));
    assert_eq!(order.request.worker_count, 6);
    assert_eq!(order.request.alphabet_spec.universe, Universe::Unicode);
    assert_eq!(order.request.alphabet_spec.exclude_codes, None);
}

#[test]
fn unicode_has_no_daemon_mode() {
    let command = Command::Unicode {
        size: Some(ByteSize { value: 64, unit: ByteUnit::B }),
        encoding: UnicodeEncoding::Utf8,
        charset: None,
        exclude: None,
        threads: None,
        buf_size: None,
        progress: false,
    };
    match command.into_order(true, 6) {
        Err(e) => assert_eq!(e, GenError::ConfigError(ConfigIssue::StreamingUnsupported)),
        Ok(_) => panic!("accepted"),
    }
}

#[test]
fn sizes_beyond_the_machine_are_refused() {
    match ascii(Some(ByteSize { value: usize::MAX, unit: ByteUnit::GiB })).into_order(false, 1) {
        Err(e) => assert_eq!(e, GenError::ConfigError(ConfigIssue::OutOfRange)),
        Ok(_) => panic!("accepted"),
    }
    let command = Command::Uuid {
        version: None,
        amount: Some(Size { value: usize::MAX, unit: Unit::T }),
        threads: None,
        buf_size: None,
        progress: false,
    };
    match command.into_order(false, 1) {
        Err(e) => assert_eq!(e, GenError::ConfigError(ConfigIssue::OutOfRange)),
        Ok(_) => panic!("accepted"),
    }
}

#[test]
fn on_this_machine_named_threads_are_kept() {
    let command = Command::Uuid {
        version: None,
        amount: None,
        threads: Some(5),
        buf_size: None,
        progress: false,
    };
    assert_eq!(command.into_order_here(false).unwrap().request.worker_count, 5);
    let order = ascii(None).into_order_here(false).unwrap();
    assert_eq!(order.request.encoding, Encoding::RawByte);
}
