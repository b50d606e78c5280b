use nififf3::error::{poisoned, truncated, unwrap_io};
use nififf3::{Detail, Error, ErrorKind, IoError};

fn carrying(kind: ErrorKind, err: Error) -> IoError {
    IoError { kind, detail: Detail::Carried(Box::new(err)) }
}

#[test]
fn every_error_converts_into_an_io_error_that_carries_it() {
    for (err, kind) in [
        (Error::SizeMismatch { expected: 5, actual: 3 }, ErrorKind::UnexpectedEof),
        (Error::InvalidMagic([0; 7]), ErrorKind::InvalidData),
        (Error::TrailingData(2), ErrorKind::InvalidData),
    ] {
        let text = err.message();
        let io: IoError = err.into();
        assert_eq!(io.kind(), kind);
        assert_eq!(io.message(), text);
        assert!(io.carried().is_some());
    }
}

#[test]
fn only_a_truncation_round_trips_back_into_its_variant() {
    let round_tripped = Error::from(IoError::from(Error::SizeMismatch { expected: 5, actual: 3 }));
    assert!(
        matches!(round_tripped, Error::SizeMismatch { expected: 5, actual: 3 }),
        "{round_tripped:?}"
    );

    for err in [Error::InvalidMagic([0; 7]), Error::TrailingData(2)] {
        let text = err.message();
        let back = Error::from(IoError::from(err));
        assert!(matches!(back, Error::Io(_)), "{back:?}");
        assert!(back.message().contains(&text));
    }
}

#[test]
fn io_displays_as_the_error_it_carries_exactly_once() {
    let plain = Error::Io(IoError::new(ErrorKind::ConnectionReset, "gone"));
    assert_eq!(plain.message(), "gone", "no prefix of its own");

    let carried = Error::Io(carrying(ErrorKind::InvalidData, Error::InvalidMagic([0; 7])));
    assert!(carried.message().contains("invalid magic"));
    assert_eq!(carried.message().matches("invalid magic").count(), 1);

    let Error::Io(ref io) = carried else {
        panic!("not an Io error");
    };
    assert!(matches!(io.carried(), Some(Error::InvalidMagic(_))));
}

#[test]
fn poisoning_is_recoverable_from_the_io_error() {
    let err = poisoned();
    assert_eq!(err.kind(), ErrorKind::BrokenPipe);
    assert!(matches!(err.carried(), Some(Error::WriterPoisoned)));
    assert!(err.message().contains("poisoned"));
}

#[test]
fn an_io_error_survives_a_trip_through_error() {
    let io = IoError::new(ErrorKind::ConnectionReset, "gone");
    let back: IoError = Error::Io(io).into();
    assert_eq!(back.kind(), ErrorKind::ConnectionReset);
    assert_eq!(back.message(), "gone");
}

#[test]
fn a_truncation_survives_the_public_conversion() {
    let err = Error::from(truncated(5, 3));
    assert!(matches!(err, Error::SizeMismatch { expected: 5, actual: 3 }), "{err:?}");
}

#[test]
fn an_unrelated_carried_error_stays_io() {
    for inner in [
        carrying(ErrorKind::InvalidData, Error::InvalidMagic([0; 7])),
        carrying(ErrorKind::UnexpectedEof, Error::InvalidMagic([0; 7])),
        carrying(ErrorKind::UnexpectedEof, Error::TrailingData(2)),
    ] {
        let err = Error::from(inner);
        assert!(matches!(err, Error::Io(_)), "{err:?}");
    }
}

#[test]
fn truncated_and_unwrap_io_are_inverses() {
    let err = unwrap_io(truncated(9, 4));
    assert!(matches!(err, Error::SizeMismatch { expected: 9, actual: 4 }));
}

#[test]
fn every_error_says_what_it_is_about() {
    for (err, text) in [
        (
            Error::InvalidMagic([78, 79, 80, 0, 255, 10, 100]),
            "invalid magic header: expected \"NiFiFF3\", got [78, 79, 80, 0, 255, 10, 100]",
        ),
        (
            Error::SizeMismatch { expected: 18446744073709551615, actual: 0 },
            "content size mismatch: header declares 18446744073709551615 bytes, got 0",
        ),
        (Error::TrailingData(1), "1 trailing bytes after flow file content"),
        (
            Error::TooManyAttributes { count: 10, limit: 5 },
            "attribute count 10 exceeds the limit of 5",
        ),
        (
            Error::AttributeTooLong { len: 29, limit: 8 },
            "attribute length 29 exceeds the limit of 8 bytes",
        ),
        (
            Error::HeaderTooLarge { len: 300, limit: 256 },
            "attribute bytes total 300, which exceeds the limit of 256 bytes",
        ),
        (
            Error::WriterPoisoned,
            "flow file writer is poisoned: an earlier write left a truncated flow file in the stream",
        ),
        (
            Error::ContentTooLarge { size: 5, limit: 4 },
            "content size 5 exceeds the limit of 4 bytes",
        ),
    ] {
        assert_eq!(err.message(), text);
    }
}
