use whitesmith::status::ComputationResult;
use whitesmith::summary::{decimal_string, render_summary_header, render_summary_line};

#[test]
fn decimal_rendering() {
    assert_eq!(decimal_string(0), "0");
    assert_eq!(decimal_string(7), "7");
    assert_eq!(decimal_string(42), "42");
    assert_eq!(decimal_string(1000), "1000");
    assert_eq!(decimal_string(u64::MAX), "18446744073709551615");
}

#[test]
fn header_names_the_fields() {
    assert_eq!(render_summary_header(), "job\tstatus\telapsed_ms");
}

#[test]
fn success_row() {
    let line = render_summary_line("solver-a", ComputationResult::Success(42));
    assert_eq!(line, "solver-a\tOk\t42");
}

#[test]
fn error_row() {
    let line = render_summary_line("solver-b", ComputationResult::Error(9001));
    assert_eq!(line, "solver-b\tError\t9001");
}

#[test]
fn timeout_row_carries_the_bound() {
    let line = render_summary_line("slow-job", ComputationResult::Timeout(1000));
    assert_eq!(line, "slow-job\tTimeout\t1000");
}
