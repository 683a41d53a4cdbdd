//! Summary rendering: the tab-delimited row appended for each completed
//! job, and the header row naming its fields. Rows are append-only; the
//! file itself is written outside the engine.

use vstd::prelude::*;
use crate::status::ComputationResult;
use crate::subst::{chars_to_string, str_to_chars};

verus! {

/// The decimal digit character for one digit value.
pub open spec fn spec_digit_char(d: nat) -> char {
    if d == 0 {
        '0'
    } else if d == 1 {
        '1'
    } else if d == 2 {
        '2'
    } else if d == 3 {
        '3'
    } else if d == 4 {
        '4'
    } else if d == 5 {
        '5'
    } else if d == 6 {
        '6'
    } else if d == 7 {
        '7'
    } else if d == 8 {
        '8'
    } else {
        '9'
    }
}

/// The decimal text of a number, most significant digit first, without
/// leading zeroes (zero itself is "0").
pub open spec fn spec_decimal(n: nat) -> Seq<char>
    decreases n,
{
    if n < 10 {
        seq![spec_digit_char(n)]
    } else {
        spec_decimal(n / 10) + seq![spec_digit_char(n % 10)]
    }
}

/// The character for one decimal digit.
fn digit_char(d: u64) -> (c: char)
    requires
        d < 10,
    ensures
        c == spec_digit_char(d as nat),
{
    if d == 0 {
        '0'
    } else if d == 1 {
        '1'
    } else if d == 2 {
        '2'
    } else if d == 3 {
        '3'
    } else if d == 4 {
        '4'
    } else if d == 5 {
        '5'
    } else if d == 6 {
        '6'
    } else if d == 7 {
        '7'
    } else if d == 8 {
        '8'
    } else {
        '9'
    }
}

/// Appends the decimal text of `n`.
pub fn push_decimal(out: &mut Vec<char>, n: u64)
    ensures
        final(out)@ == old(out)@ + spec_decimal(n as nat),
    decreases n,
{
    if n < 10 {
        out.push(digit_char(n));
        assert(final(out)@ =~= old(out)@ + spec_decimal(n as nat));
    } else {
        let ghost head = out@;
        push_decimal(out, n / 10);
        out.push(digit_char(n % 10));
        assert(final(out)@ =~= head + spec_decimal(n as nat));
    }
}

/// The decimal text of a count.
pub fn decimal_string(n: u64) -> (r: String)
    ensures
        r@ == spec_decimal(n as nat),
{
    let mut v: Vec<char> = Vec::new();
    push_decimal(&mut v, n);
    proof {
        assert(Seq::<char>::empty() + spec_decimal(n as nat) =~= spec_decimal(n as nat));
    }
    chars_to_string(&v)
}

/// The status column text of a classified result.
pub open spec fn spec_result_label(r: ComputationResult) -> Seq<char> {
    match r {
        ComputationResult::Success(_) => seq!['O', 'k'],
        ComputationResult::Error(_) => seq!['E', 'r', 'r', 'o', 'r'],
        ComputationResult::Timeout(_) => seq!['T', 'i', 'm', 'e', 'o', 'u', 't'],
    }
}

/// The milliseconds column of a classified result: the elapsed time for
/// an exit, the bound itself for a timeout.
pub open spec fn spec_result_millis(r: ComputationResult) -> u64 {
    match r {
        ComputationResult::Success(ms) => ms,
        ComputationResult::Error(ms) => ms,
        ComputationResult::Timeout(ms) => ms,
    }
}

/// The milliseconds column of a classified result.
pub fn result_millis(r: ComputationResult) -> (ms: u64)
    ensures
        ms == spec_result_millis(r),
{
    match r {
        ComputationResult::Success(ms) => ms,
        ComputationResult::Error(ms) => ms,
        ComputationResult::Timeout(ms) => ms,
    }
}

/// Appends the status column text.
fn push_label(out: &mut Vec<char>, r: ComputationResult)
    ensures
        final(out)@ == old(out)@ + spec_result_label(r),
{
    match r {
        ComputationResult::Success(_) => {
            out.push('O');
            out.push('k');
        },
        ComputationResult::Error(_) => {
            out.push('E');
            out.push('r');
            out.push('r');
            out.push('o');
            out.push('r');
        },
        ComputationResult::Timeout(_) => {
            out.push('T');
            out.push('i');
            out.push('m');
            out.push('e');
            out.push('o');
            out.push('u');
            out.push('t');
        },
    }
    assert(final(out)@ =~= old(out)@ + spec_result_label(r));
}

/// One summary row: the job identifier, the classification and the
/// milliseconds column, tab-delimited.
pub open spec fn spec_summary_line(id: Seq<char>, r: ComputationResult) -> Seq<char> {
    id + seq!['\t'] + spec_result_label(r) + seq!['\t'] + spec_decimal(
        spec_result_millis(r) as nat,
    )
}

/// The header row naming the summary's fields.
pub open spec fn spec_summary_header() -> Seq<char> {
    seq![
        'j',
        'o',
        'b',
        '\t',
        's',
        't',
        'a',
        't',
        'u',
        's',
        '\t',
        'e',
        'l',
        'a',
        'p',
        's',
        'e',
        'd',
        '_',
        'm',
        's',
    ]
}

/// Renders the header row.
pub fn render_summary_header() -> (r: String)
    ensures
        r@ == spec_summary_header(),
{
    let mut v: Vec<char> = Vec::new();
    v.push('j');
    v.push('o');
    v.push('b');
    v.push('\t');
    v.push('s');
    v.push('t');
    v.push('a');
    v.push('t');
    v.push('u');
    v.push('s');
    v.push('\t');
    v.push('e');
    v.push('l');
    v.push('a');
    v.push('p');
    v.push('s');
    v.push('e');
    v.push('d');
    v.push('_');
    v.push('m');
    v.push('s');
    assert(v@ =~= spec_summary_header());
    chars_to_string(&v)
}

/// Renders the summary row for one completed job.
pub fn render_summary_line(id: &str, r: ComputationResult) -> (line: String)
    ensures
        line@ == spec_summary_line(id@, r),
{
    let mut v: Vec<char> = str_to_chars(id);
    v.push('\t');
    push_label(&mut v, r);
    v.push('\t');
    push_decimal(&mut v, result_millis(r));
    assert(v@ =~= spec_summary_line(id@, r));
    chars_to_string(&v)
}

} // verus!
