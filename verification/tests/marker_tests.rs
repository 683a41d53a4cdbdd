use whitesmith::marker::{decode_status, encode_status};
use whitesmith::status::{Outcome, RunStatus};

#[test]
fn round_trip_every_status() {
    let statuses = [
        RunStatus::NotStarted,
        RunStatus::InProgress,
        RunStatus::TimedOut,
        RunStatus::Failed,
        RunStatus::Done(Outcome::Success { millis: 0 }),
        RunStatus::Done(Outcome::Success { millis: 12345 }),
        RunStatus::Done(Outcome::Failure { millis: 1 }),
        RunStatus::Done(Outcome::Failure { millis: u64::MAX }),
    ];
    for status in statuses {
        assert_eq!(decode_status(&encode_status(status)), status);
    }
}

#[test]
fn encoded_marker_texts() {
    assert_eq!(encode_status(RunStatus::NotStarted), "NotStarted");
    assert_eq!(encode_status(RunStatus::InProgress), "InProgress");
    assert_eq!(encode_status(RunStatus::TimedOut), "TimedOut");
    assert_eq!(encode_status(RunStatus::Failed), "Failed");
    assert_eq!(
        encode_status(RunStatus::Done(Outcome::Success { millis: 42 })),
        "Done Ok 42"
    );
    assert_eq!(
        encode_status(RunStatus::Done(Outcome::Failure { millis: 9001 })),
        "Done Error 9001"
    );
}

#[test]
fn unrecognized_markers_read_not_started() {
    assert_eq!(decode_status(""), RunStatus::NotStarted);
    assert_eq!(decode_status("bogus"), RunStatus::NotStarted);
    assert_eq!(decode_status("Done"), RunStatus::NotStarted);
    assert_eq!(decode_status("Done Ok "), RunStatus::NotStarted);
    assert_eq!(decode_status("Done Ok x1"), RunStatus::NotStarted);
    assert_eq!(decode_status("notstarted"), RunStatus::NotStarted);
}

#[test]
fn leading_zeroes_still_parse() {
    assert_eq!(
        decode_status("Done Ok 007"),
        RunStatus::Done(Outcome::Success { millis: 7 })
    );
}

#[test]
fn overflowing_count_reads_not_started() {
    assert_eq!(
        decode_status("Done Ok 99999999999999999999999999"),
        RunStatus::NotStarted
    );
}
