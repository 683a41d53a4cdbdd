//! The durable status marker's on-disk text: each job's lifecycle state
//! encoded as one short line, and decoded back when a campaign resumes.
//! Decoding inverts encoding exactly; writing the file itself (write the
//! new marker whole, then rename it into place) is the caller's.

use vstd::prelude::*;
use crate::status::{Outcome, RunStatus};
use crate::subst::{chars_eq, chars_to_string, str_to_chars};
use crate::summary::{push_decimal, spec_decimal, spec_digit_char};

verus! {

/// A decimal digit character.
pub open spec fn spec_is_digit(c: char) -> bool {
    c == '0' || c == '1' || c == '2' || c == '3' || c == '4' || c == '5' || c == '6' || c == '7'
        || c == '8' || c == '9'
}

/// The value of a decimal digit character.
pub open spec fn spec_digit_value(c: char) -> nat
    recommends
        spec_is_digit(c),
{
    if c == '0' {
        0
    } else if c == '1' {
        1
    } else if c == '2' {
        2
    } else if c == '3' {
        3
    } else if c == '4' {
        4
    } else if c == '5' {
        5
    } else if c == '6' {
        6
    } else if c == '7' {
        7
    } else if c == '8' {
        8
    } else {
        9
    }
}

/// The number a digit string denotes, most significant digit first.
pub open spec fn spec_decimal_value(s: Seq<char>) -> nat
    decreases s.len(),
{
    if s.len() == 0 {
        0
    } else {
        spec_decimal_value(s.drop_last()) * 10 + spec_digit_value(s.last())
    }
}

/// What a string parses to as a decimal number: its value when it is
/// nonempty and all digits, nothing otherwise.
pub open spec fn spec_parse_decimal(s: Seq<char>) -> Option<nat> {
    if s.len() >= 1 && (forall|i: int| 0 <= i < s.len() ==> spec_is_digit(#[trigger] s[i])) {
        Some(spec_decimal_value(s))
    } else {
        None
    }
}

/// The character of a digit carries exactly that digit's value.
proof fn lemma_digit_char_value(d: nat)
    requires
        d < 10,
    ensures
        spec_is_digit(spec_digit_char(d)),
        spec_digit_value(spec_digit_char(d)) == d,
{
}

/// Law: decimal rendering and parsing invert each other — the decimal
/// text of a number parses back to that number.
pub proof fn lemma_parse_of_decimal(n: nat)
    ensures
        spec_parse_decimal(spec_decimal(n)) == Some(n),
    decreases n,
{
    if n < 10 {
        lemma_digit_char_value(n);
        let s = spec_decimal(n);
        assert(s.drop_last() =~= Seq::<char>::empty());
        assert(s.last() == spec_digit_char(n));
        assert(spec_decimal_value(Seq::<char>::empty()) == 0);
        assert(spec_decimal_value(s) == spec_decimal_value(s.drop_last()) * 10
            + spec_digit_value(s.last()));
        assert(spec_decimal_value(s) == n);
    } else {
        lemma_parse_of_decimal(n / 10);
        lemma_digit_char_value(n % 10);
        let s = spec_decimal(n);
        let pre = spec_decimal(n / 10);
        assert(s == pre + seq![spec_digit_char(n % 10)]);
        assert(s.drop_last() =~= pre);
        assert(s.last() == spec_digit_char(n % 10));
        assert(spec_decimal_value(s) == spec_decimal_value(pre) * 10 + (n % 10));
        vstd::arithmetic::div_mod::lemma_fundamental_div_mod(n as int, 10);
        assert(spec_decimal_value(s) == n);
        assert forall|i: int| 0 <= i < s.len() implies spec_is_digit(#[trigger] s[i]) by {
            if i < pre.len() {
                assert(pre[i] == s[i]);
                assert(spec_is_digit(pre[i]));
            } else {
                assert(s[i] == spec_digit_char(n % 10));
            }
        }
    }
}

/// A digit string's value only grows with its length: every prefix
/// denotes at most the whole.
proof fn lemma_decimal_value_prefix(s: Seq<char>, j: int)
    requires
        0 <= j <= s.len(),
    ensures
        spec_decimal_value(s) >= spec_decimal_value(s.subrange(0, j)),
    decreases s.len() - j,
{
    if j == s.len() {
        assert(s.subrange(0, j) =~= s);
    } else {
        lemma_decimal_value_prefix(s, j + 1);
        assert(s.subrange(0, j + 1).drop_last() =~= s.subrange(0, j));
        assert(spec_decimal_value(s.subrange(0, j + 1)) == spec_decimal_value(s.subrange(0, j))
            * 10 + spec_digit_value(s.subrange(0, j + 1).last()));
    }
}

/// Parses a digit string into a number. Nothing comes back for text that
/// is not a nonempty digit string, or for a value past `u64::MAX`.
pub fn parse_decimal(v: &Vec<char>) -> (r: Option<u64>)
    ensures
        r matches Some(x) ==> spec_parse_decimal(v@) == Some(x as nat),
        r is None ==> (spec_parse_decimal(v@) is None || spec_parse_decimal(v@)->Some_0
            > u64::MAX),
{
    let n = v.len();
    if n == 0 {
        return None;
    }
    let mut acc: u64 = 0;
    let mut i: usize = 0;
    while i < n
        invariant
            i <= n,
            n >= 1,
            n == v@.len(),
            forall|k: int| 0 <= k < i ==> spec_is_digit(#[trigger] v@[k]),
            acc as nat == spec_decimal_value(v@.subrange(0, i as int)),
        decreases n - i,
    {
        let c = v[i];
        let d: u64 = if c == '0' {
            0
        } else if c == '1' {
            1
        } else if c == '2' {
            2
        } else if c == '3' {
            3
        } else if c == '4' {
            4
        } else if c == '5' {
            5
        } else if c == '6' {
            6
        } else if c == '7' {
            7
        } else if c == '8' {
            8
        } else if c == '9' {
            9
        } else {
            proof {
                assert(!spec_is_digit(v@[i as int]));
            }
            return None;
        };
        proof {
            assert(spec_is_digit(v@[i as int]));
            assert(spec_digit_value(v@[i as int]) == d as nat);
            assert(v@.subrange(0, i + 1).drop_last() =~= v@.subrange(0, i as int));
            assert(v@.subrange(0, i + 1).last() == v@[i as int]);
        }
        if acc > (u64::MAX - d) / 10 {
            proof {
                vstd::arithmetic::div_mod::lemma_fundamental_div_mod(
                    (u64::MAX - d) as int,
                    10,
                );
                assert(spec_decimal_value(v@.subrange(0, i + 1)) == (acc as nat) * 10 + d);
                assert((acc as nat) * 10 + d > u64::MAX);
                lemma_decimal_value_prefix(v@, i + 1);
                assert(spec_decimal_value(v@) > u64::MAX);
            }
            return None;
        }
        acc = acc * 10 + d;
        i = i + 1;
    }
    proof {
        assert(v@.subrange(0, n as int) =~= v@);
    }
    Some(acc)
}

/// The marker text of a run status: a fixed word for each stage, the
/// completed stages carrying their outcome and milliseconds.
pub open spec fn spec_encode_status(s: RunStatus) -> Seq<char> {
    match s {
        RunStatus::NotStarted => "NotStarted"@,
        RunStatus::InProgress => "InProgress"@,
        RunStatus::TimedOut => "TimedOut"@,
        RunStatus::Failed => "Failed"@,
        RunStatus::Done(Outcome::Success { millis }) => "Done Ok "@ + spec_decimal(
            millis as nat,
        ),
        RunStatus::Done(Outcome::Failure { millis }) => "Done Error "@ + spec_decimal(
            millis as nat,
        ),
    }
}

/// Encodes a run status as its marker text.
pub fn encode_status(s: RunStatus) -> (r: String)
    ensures
        r@ == spec_encode_status(s),
{
    match s {
        RunStatus::NotStarted => String::from_str("NotStarted"),
        RunStatus::InProgress => String::from_str("InProgress"),
        RunStatus::TimedOut => String::from_str("TimedOut"),
        RunStatus::Failed => String::from_str("Failed"),
        RunStatus::Done(Outcome::Success { millis }) => {
            let mut v = str_to_chars("Done Ok ");
            push_decimal(&mut v, millis);
            chars_to_string(&v)
        },
        RunStatus::Done(Outcome::Failure { millis }) => {
            let mut v = str_to_chars("Done Error ");
            push_decimal(&mut v, millis);
            chars_to_string(&v)
        },
    }
}

/// The status a marker text denotes. Unrecognized text — including a
/// mangled or missing marker — reads as `NotStarted`.
pub open spec fn spec_decode_status(t: Seq<char>) -> RunStatus {
    if t == "NotStarted"@ {
        RunStatus::NotStarted
    } else if t == "InProgress"@ {
        RunStatus::InProgress
    } else if t == "TimedOut"@ {
        RunStatus::TimedOut
    } else if t == "Failed"@ {
        RunStatus::Failed
    } else if ({
        &&& t.len() > 8
        &&& t.subrange(0, 8) == "Done Ok "@
        &&& spec_parse_decimal(t.subrange(8, t.len() as int)) matches Some(ms) && ms
            <= u64::MAX
    }) {
        RunStatus::Done(
            Outcome::Success {
                millis: spec_parse_decimal(t.subrange(8, t.len() as int))->Some_0 as u64,
            },
        )
    } else if ({
        &&& t.len() > 11
        &&& t.subrange(0, 11) == "Done Error "@
        &&& spec_parse_decimal(t.subrange(11, t.len() as int)) matches Some(ms) && ms
            <= u64::MAX
    }) {
        RunStatus::Done(
            Outcome::Failure {
                millis: spec_parse_decimal(t.subrange(11, t.len() as int))->Some_0 as u64,
            },
        )
    } else {
        RunStatus::NotStarted
    }
}

/// The characters of `v` from `from` to the end.
fn tail_chars(v: &Vec<char>, from: usize) -> (r: Vec<char>)
    requires
        from <= v@.len(),
    ensures
        r@ == v@.subrange(from as int, v@.len() as int),
{
    let n = v.len();
    let mut r: Vec<char> = Vec::new();
    let mut i: usize = from;
    while i < n
        invariant
            from <= i <= n,
            n == v@.len(),
            r@ == v@.subrange(from as int, i as int),
        decreases n - i,
    {
        r.push(v[i]);
        assert(r@ =~= v@.subrange(from as int, i + 1));
        i = i + 1;
    }
    r
}

/// Whether `v` starts with `pfx`.
fn has_prefix(v: &Vec<char>, pfx: &Vec<char>) -> (r: bool)
    ensures
        r <==> (v@.len() >= pfx@.len() && v@.subrange(0, pfx@.len() as int) == pfx@),
{
    if pfx.len() > v.len() {
        return false;
    }
    let n = pfx.len();
    let mut i: usize = 0;
    while i < n
        invariant
            i <= n,
            n == pfx@.len(),
            n <= v@.len(),
            forall|k: int| 0 <= k < i ==> v@[k] == pfx@[k],
        decreases n - i,
    {
        if v[i] != pfx[i] {
            assert(v@.subrange(0, pfx@.len() as int)[i as int] == v@[i as int]);
            return false;
        }
        i = i + 1;
    }
    assert(v@.subrange(0, pfx@.len() as int) =~= pfx@);
    true
}

/// Decodes a marker text back into a run status.
pub fn decode_status(text: &str) -> (r: RunStatus)
    ensures
        r == spec_decode_status(text@),
{
    let v = str_to_chars(text);
    let not_started = str_to_chars("NotStarted");
    if chars_eq(&v, &not_started) {
        return RunStatus::NotStarted;
    }
    let in_progress = str_to_chars("InProgress");
    if chars_eq(&v, &in_progress) {
        return RunStatus::InProgress;
    }
    let timed_out = str_to_chars("TimedOut");
    if chars_eq(&v, &timed_out) {
        return RunStatus::TimedOut;
    }
    let failed = str_to_chars("Failed");
    if chars_eq(&v, &failed) {
        return RunStatus::Failed;
    }
    let done_ok = str_to_chars("Done Ok ");
    proof {
        reveal_strlit("Done Ok ");
        reveal_strlit("Done Error ");
        assert(("Done Ok "@).len() == 8);
        assert(("Done Error "@).len() == 11);
    }
    if v.len() > done_ok.len() && has_prefix(&v, &done_ok) {
        let rest = tail_chars(&v, done_ok.len());
        if let Some(ms) = parse_decimal(&rest) {
            return RunStatus::Done(Outcome::Success { millis: ms });
        }
        proof {
            if text@.len() > 11 && text@.subrange(0, 11) == "Done Error "@ {
                assert(text@.subrange(0, 11)[5] == text@[5]);
                assert(text@.subrange(0, 8)[5] == text@[5]);
                assert(("Done Ok "@)[5] == 'O');
                assert(("Done Error "@)[5] == 'E');
            }
        }
        return RunStatus::NotStarted;
    }
    let done_error = str_to_chars("Done Error ");
    if v.len() > done_error.len() && has_prefix(&v, &done_error) {
        let rest = tail_chars(&v, done_error.len());
        if let Some(ms) = parse_decimal(&rest) {
            return RunStatus::Done(Outcome::Failure { millis: ms });
        }
        return RunStatus::NotStarted;
    }
    RunStatus::NotStarted
}

/// Law: a persisted marker is read back as the status that was written —
/// decoding inverts encoding on every run status.
pub proof fn lemma_marker_round_trip(s: RunStatus)
    ensures
        spec_decode_status(spec_encode_status(s)) == s,
{
    reveal_strlit("NotStarted");
    reveal_strlit("InProgress");
    reveal_strlit("TimedOut");
    reveal_strlit("Failed");
    reveal_strlit("Done Ok ");
    reveal_strlit("Done Error ");
    match s {
        RunStatus::NotStarted => {
        },
        RunStatus::InProgress => {
            assert(("InProgress"@)[0] == 'I');
            assert(("NotStarted"@)[0] == 'N');
        },
        RunStatus::TimedOut => {
            assert(("TimedOut"@).len() == 8);
            assert(("NotStarted"@).len() == 10);
            assert(("InProgress"@).len() == 10);
        },
        RunStatus::Failed => {
            assert(("Failed"@).len() == 6);
            assert(("NotStarted"@).len() == 10);
            assert(("InProgress"@).len() == 10);
            assert(("TimedOut"@).len() == 8);
        },
        RunStatus::Done(Outcome::Success { millis }) => {
            let t = spec_encode_status(s);
            let dec = spec_decimal(millis as nat);
            assert(dec.len() >= 1);
            assert(("Done Ok "@).len() == 8);
            assert(t.len() == 8 + dec.len());
            assert(t[0] == ("Done Ok "@)[0]);
            assert(t[0] == 'D');
            assert(("NotStarted"@)[0] == 'N');
            assert(("InProgress"@)[0] == 'I');
            assert(("TimedOut"@)[0] == 'T');
            assert(("Failed"@)[0] == 'F');
            assert(t.subrange(0, 8) =~= "Done Ok "@);
            assert(t.subrange(8, t.len() as int) =~= dec);
            lemma_parse_of_decimal(millis as nat);
        },
        RunStatus::Done(Outcome::Failure { millis }) => {
            let t = spec_encode_status(s);
            let dec = spec_decimal(millis as nat);
            assert(dec.len() >= 1);
            assert(("Done Error "@).len() == 11);
            assert(t.len() == 11 + dec.len());
            assert(t[0] == ("Done Error "@)[0]);
            assert(t[0] == 'D');
            assert(("NotStarted"@)[0] == 'N');
            assert(("InProgress"@)[0] == 'I');
            assert(("TimedOut"@)[0] == 'T');
            assert(("Failed"@)[0] == 'F');
            if t.len() > 8 && t.subrange(0, 8) == "Done Ok "@ {
                assert(t[5] == ("Done Error "@)[5]);
                assert(t[5] == 'E');
                assert(t.subrange(0, 8)[5] == t[5]);
                assert(("Done Ok "@)[5] == 'O');
            }
            assert(t.subrange(0, 11) =~= "Done Error "@);
            assert(t.subrange(11, t.len() as int) =~= dec);
            lemma_parse_of_decimal(millis as nat);
        },
    }
}

} // verus!
