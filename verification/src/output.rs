//! The result of running one command, and the status record that makes it
//! durable.
//!
//! A status record is a single JSON object with the one member `exit_code`,
//! for example `{"exit_code":0}`. Whitespace is allowed wherever JSON allows
//! it; anything else is not a status record.

use vstd::prelude::*;

verus! {

/// The exit code reported when the process did not supply one.
pub const EXIT_CODE_UNAVAILABLE: i32 = -555;

/// What one execution of a command produced.
#[derive(Clone, Copy, Debug, PartialEq, Eq, Hash, Structural)]
pub struct CommandOutput {
    pub exit_code: i32,
}

/// The bytes `{"exit_code":` that open a status record written by this crate.
pub open spec fn record_open() -> Seq<u8> {
    seq![123u8, 34u8, 101u8, 120u8, 105u8, 116u8, 95u8, 99u8, 111u8, 100u8, 101u8, 34u8, 58u8]
}

/// The bytes `"exit_code"`, the only member name of a status record.
pub open spec fn record_key() -> Seq<u8> {
    seq![34u8, 101u8, 120u8, 105u8, 116u8, 95u8, 99u8, 111u8, 100u8, 101u8, 34u8]
}

/// The decimal digits of `n`, most significant first, as ASCII.
pub open spec fn decimal_digits(n: nat) -> Seq<u8>
    decreases n,
{
    if n < 10 {
        seq![(48 + n) as u8]
    } else {
        decimal_digits(n / 10).push((48 + n % 10) as u8)
    }
}

/// The decimal rendering of `n`, with a leading `-` when `n` is negative.
pub open spec fn decimal(n: int) -> Seq<u8> {
    if n < 0 {
        seq![45u8] + decimal_digits((-n) as nat)
    } else {
        decimal_digits(n as nat)
    }
}

/// The status record this crate writes for `exit_code`.
pub open spec fn status_record(exit_code: int) -> Seq<u8> {
    record_open() + decimal(exit_code) + seq![125u8]
}

/// JSON whitespace: space, tab, line feed, carriage return.
pub open spec fn is_ws(b: u8) -> bool {
    b == 32 || b == 9 || b == 10 || b == 13
}

pub open spec fn is_digit(b: u8) -> bool {
    48 <= b <= 57
}

/// The first position at or after `i` that holds no whitespace.
pub open spec fn skip_ws(s: Seq<u8>, i: int) -> int
    decreases s.len() - i,
{
    if 0 <= i < s.len() && is_ws(s[i]) {
        skip_ws(s, i + 1)
    } else {
        i
    }
}

/// The first position at or after `i` that holds no digit.
pub open spec fn digits_end(s: Seq<u8>, i: int) -> int
    decreases s.len() - i,
{
    if 0 <= i < s.len() && is_digit(s[i]) {
        digits_end(s, i + 1)
    } else {
        i
    }
}

/// The number written by the digits of `s` in `from..to`.
pub open spec fn digits_value(s: Seq<u8>, from: int, to: int) -> int
    decreases to - from,
{
    if from >= to {
        0
    } else {
        digits_value(s, from, to - 1) * 10 + (s[to - 1] - 48)
    }
}

/// Whether `pat` occurs in `s` at position `i`.
pub open spec fn has_at(s: Seq<u8>, i: int, pat: Seq<u8>) -> bool {
    0 <= i && i + pat.len() <= s.len() && s.subrange(i, i + pat.len()) == pat
}

/// Reads a JSON integer that fits an `i32` at position `i`: an optional `-`,
/// then digits without a superfluous leading zero. Gives the value and the
/// position after its last digit.
pub open spec fn parse_int(s: Seq<u8>, i: int) -> Option<(int, int)> {
    let neg: bool = 0 <= i < s.len() && s[i] == 45;
    let start: int = if neg { i + 1 } else { i };
    let end: int = digits_end(s, start);
    let magnitude: int = digits_value(s, start, end);
    let value: int = if neg { -magnitude } else { magnitude };
    if end == start {
        None
    } else if s[start] == 48 && (neg || end - start > 1) {
        None
    } else if i32::MIN <= value <= i32::MAX {
        Some((value, end))
    } else {
        None
    }
}

/// The exit code held by the status record `s`, if `s` is one.
pub open spec fn parse_status_record(s: Seq<u8>) -> Option<i32> {
    let brace: int = skip_ws(s, 0);
    let key: int = skip_ws(s, brace + 1);
    let colon: int = skip_ws(s, key + record_key().len());
    let number: int = skip_ws(s, colon + 1);
    if !has_at(s, brace, seq![123u8]) || !has_at(s, key, record_key()) || !has_at(
        s,
        colon,
        seq![58u8],
    ) {
        None
    } else {
        match parse_int(s, number) {
            None => None,
            Some((value, end)) => {
                let close: int = skip_ws(s, end);
                if has_at(s, close, seq![125u8]) && skip_ws(s, close + 1) == s.len() {
                    Some(value as i32)
                } else {
                    None
                }
            },
        }
    }
}

impl CommandOutput {
    pub open spec fn spec_passed(&self) -> bool {
        self.exit_code == 0
    }

    /// A command passed when its process exited with code zero.
    #[verifier::when_used_as_spec(spec_passed)]
    pub fn passed(&self) -> (ok: bool)
        ensures
            ok == (self.exit_code == 0),
    {
        self.exit_code == 0
    }

    /// The output of a process that ended with `code`; a process that ended
    /// without a code (killed by a signal, say) is given the sentinel.
    pub fn from_exit_status(code: Option<i32>) -> (output: CommandOutput)
        ensures
            output.exit_code == match code {
                Some(c) => c,
                None => EXIT_CODE_UNAVAILABLE,
            },
    {
        match code {
            Some(c) => CommandOutput { exit_code: c },
            None => CommandOutput { exit_code: EXIT_CODE_UNAVAILABLE },
        }
    }

    /// The outcome of looking a status record up: the record's output when
    /// one was found and reads as a status record, a cache miss otherwise.
    pub open spec fn spec_from_status_record(record: Option<Seq<u8>>) -> Option<CommandOutput> {
        match record {
            None => None,
            Some(bytes) => match parse_status_record(bytes) {
                None => None,
                Some(exit_code) => Some(CommandOutput { exit_code }),
            },
        }
    }

    /// Writes the status record of this output.
    pub fn to_status_bytes(&self) -> (bytes: Vec<u8>)
        ensures
            bytes@ == status_record(self.exit_code as int),
    {
        let mut out: Vec<u8> = Vec::new();
        out.push(123u8);
        out.push(34u8);
        out.push(101u8);
        out.push(120u8);
        out.push(105u8);
        out.push(116u8);
        out.push(95u8);
        out.push(99u8);
        out.push(111u8);
        out.push(100u8);
        out.push(101u8);
        out.push(34u8);
        out.push(58u8);
        assert(out@ == record_open());
        let code: i64 = self.exit_code as i64;
        if code < 0 {
            out.push(45u8);
            push_decimal(&mut out, (-code) as u64);
        } else {
            push_decimal(&mut out, code as u64);
        }
        assert(out@ == record_open() + decimal(self.exit_code as int));
        out.push(125u8);
        out
    }

    /// Reads a status record.
    pub fn from_status_bytes(bytes: &[u8]) -> (output: Option<CommandOutput>)
        ensures
            output == Self::spec_from_status_record(Some(bytes@)),
    {
        let brace: usize = skip_whitespace(bytes, 0);
        if !(brace < bytes.len() && bytes[brace] == 123u8) {
            proof {
                lemma_has_at_one(bytes@, brace as int, 123u8);
            }
            return None;
        }
        proof {
            lemma_has_at_one(bytes@, brace as int, 123u8);
        }
        let key: usize = skip_whitespace(bytes, brace + 1);
        if !find_key(bytes, key) {
            return None;
        }
        let colon: usize = skip_whitespace(bytes, key + 11);
        proof {
            lemma_has_at_one(bytes@, colon as int, 58u8);
        }
        if !(colon < bytes.len() && bytes[colon] == 58u8) {
            return None;
        }
        let number: usize = skip_whitespace(bytes, colon + 1);
        match read_int(bytes, number) {
            None => None,
            Some((value, end)) => {
                let close: usize = skip_whitespace(bytes, end);
                proof {
                    lemma_has_at_one(bytes@, close as int, 125u8);
                }
                if !(close < bytes.len() && bytes[close] == 125u8) {
                    return None;
                }
                let rest: usize = skip_whitespace(bytes, close + 1);
                if rest == bytes.len() {
                    Some(CommandOutput { exit_code: value })
                } else {
                    None
                }
            },
        }
    }
}

/// A one-byte pattern occurs at `i` exactly when `i` is in range and holds it.
proof fn lemma_has_at_one(s: Seq<u8>, i: int, b: u8)
    requires
        0 <= i,
    ensures
        has_at(s, i, seq![b]) <==> (i < s.len() && s[i] == b),
{
    if i < s.len() {
        if s[i] == b {
            assert(s.subrange(i, i + 1) =~= seq![b]);
        } else {
            assert(s.subrange(i, i + 1)[0] == s[i]);
        }
    }
}

/// Adds the decimal digits of `n` to `out`.
pub fn push_decimal(out: &mut Vec<u8>, n: u64)
    ensures
        final(out)@ == old(out)@ + decimal_digits(n as nat),
    decreases n,
{
    if n >= 10 {
        push_decimal(out, n / 10);
    }
    let digit: u8 = (48 + n % 10) as u8;
    out.push(digit);
    assert(final(out)@ == old(out)@ + decimal_digits(n as nat)) by {
        if n >= 10 {
            assert(old(out)@ + decimal_digits((n / 10) as nat).push(digit) =~= (old(out)@
                + decimal_digits((n / 10) as nat)).push(digit));
        } else {
            assert(old(out)@ + seq![digit] =~= old(out)@.push(digit));
        }
    }
}

fn skip_whitespace(bytes: &[u8], from: usize) -> (end: usize)
    requires
        from <= bytes.len(),
    ensures
        end == skip_ws(bytes@, from as int),
        from <= end <= bytes.len(),
{
    let mut i: usize = from;
    while i < bytes.len() && (bytes[i] == 32u8 || bytes[i] == 9u8 || bytes[i] == 10u8 || bytes[i]
        == 13u8)
        invariant
            from <= i <= bytes.len(),
            skip_ws(bytes@, from as int) == skip_ws(bytes@, i as int),
        decreases bytes.len() - i,
    {
        i += 1;
    }
    i
}

fn find_key(bytes: &[u8], at: usize) -> (found: bool)
    requires
        at <= bytes.len(),
    ensures
        found == has_at(bytes@, at as int, record_key()),
{
    if bytes.len() - at < 11 {
        return false;
    }
    let found: bool = bytes[at] == 34u8 && bytes[at + 1] == 101u8 && bytes[at + 2] == 120u8
        && bytes[at + 3] == 105u8 && bytes[at + 4] == 116u8 && bytes[at + 5] == 95u8 && bytes[at
        + 6] == 99u8 && bytes[at + 7] == 111u8 && bytes[at + 8] == 100u8 && bytes[at + 9] == 101u8
        && bytes[at + 10] == 34u8;
    proof {
        let window: Seq<u8> = bytes@.subrange(at as int, at + 11);
        if found {
            assert(window =~= record_key());
        } else {
            assert(forall|k: int| 0 <= k < 11 ==> window[k] == bytes@[at + k]);
            if window == record_key() {
                assert(window[0] == 34u8 && window[1] == 101u8 && window[2] == 120u8 && window[3]
                    == 105u8 && window[4] == 116u8 && window[5] == 95u8 && window[6] == 99u8
                    && window[7] == 111u8 && window[8] == 100u8 && window[9] == 101u8
                    && window[10] == 34u8);
            }
        }
    }
    found
}

/// Appending a digit never lowers the value written so far.
proof fn lemma_digits_value_grows(s: Seq<u8>, from: int, mid: int, to: int)
    requires
        0 <= from <= mid <= to <= s.len(),
        forall|k: int| from <= k < to ==> is_digit(s[k]),
    ensures
        0 <= digits_value(s, from, mid) <= digits_value(s, from, to),
    decreases to - mid,
{
    lemma_digits_value_nonneg(s, from, mid);
    if mid < to {
        lemma_digits_value_grows(s, from, mid, to - 1);
    }
}

proof fn lemma_digits_value_nonneg(s: Seq<u8>, from: int, to: int)
    requires
        0 <= from <= to <= s.len(),
        forall|k: int| from <= k < to ==> is_digit(s[k]),
    ensures
        0 <= digits_value(s, from, to),
    decreases to - from,
{
    if from < to {
        lemma_digits_value_nonneg(s, from, to - 1);
    }
}

/// Every position between a start and its `digits_end` holds a digit.
proof fn lemma_digits_end(s: Seq<u8>, i: int)
    requires
        0 <= i <= s.len(),
    ensures
        i <= digits_end(s, i) <= s.len(),
        forall|k: int| i <= k < digits_end(s, i) ==> is_digit(s[k]),
        digits_end(s, i) < s.len() ==> !is_digit(s[digits_end(s, i)]),
    decreases s.len() - i,
{
    if i < s.len() && is_digit(s[i]) {
        lemma_digits_end(s, i + 1);
    }
}

fn read_int(bytes: &[u8], at: usize) -> (r: Option<(i32, usize)>)
    requires
        at <= bytes.len(),
    ensures
        match r {
            Some((value, end)) => parse_int(bytes@, at as int) == Some((value as int, end as int))
                && end <= bytes.len(),
            None => parse_int(bytes@, at as int) is None,
        },
{
    let neg: bool = at < bytes.len() && bytes[at] == 45u8;
    let start: usize = if neg {
        at + 1
    } else {
        at
    };
    let ghost end: int = digits_end(bytes@, start as int);
    proof {
        lemma_digits_end(bytes@, start as int);
    }
    let mut i: usize = start;
    let mut magnitude: i64 = 0;
    while i < bytes.len() && 48u8 <= bytes[i] && bytes[i] <= 57u8
        invariant
            start <= i <= end <= bytes.len(),
            neg == (at < bytes@.len() && bytes@[at as int] == 45),
            start == if neg { at + 1 } else { at as int },
            end == digits_end(bytes@, start as int),
            forall|k: int| start <= k < end ==> is_digit(bytes@[k]),
            end < bytes.len() ==> !is_digit(bytes@[end]),
            magnitude == digits_value(bytes@, start as int, i as int),
            0 <= magnitude <= 2147483648,
        decreases bytes.len() - i,
    {
        let next: i64 = magnitude * 10 + (bytes[i] - 48u8) as i64;
        if next > 2147483648 {
            proof {
                assert(i < end);
                assert(digits_value(bytes@, start as int, i + 1) == next);
                lemma_digits_value_grows(bytes@, start as int, i + 1, end);
            }
            return None;
        }
        magnitude = next;
        i += 1;
    }
    assert(i == end);
    if i == start {
        return None;
    }
    if bytes[start] == 48u8 && (neg || i - start > 1) {
        return None;
    }
    if neg {
        Some(((-magnitude) as i32, i))
    } else if magnitude <= 2147483647 {
        Some((magnitude as i32, i))
    } else {
        None
    }
}

/// Every byte of a decimal rendering is a digit, and only zero starts with
/// the digit `0`.
pub proof fn lemma_decimal_digits_shape(n: nat)
    ensures
        decimal_digits(n).len() >= 1,
        forall|k: int| 0 <= k < decimal_digits(n).len() ==> is_digit(#[trigger] decimal_digits(n)[k]),
        decimal_digits(n)[0] == 48 <==> n == 0,
        n == 0 ==> decimal_digits(n).len() == 1,
    decreases n,
{
    if n >= 10 {
        lemma_decimal_digits_shape(n / 10);
    }
}

/// Reading back the digits written for `n` gives `n`, wherever in a text
/// they stand, as long as no further digit follows them.
pub proof fn lemma_digits_round_trip(s: Seq<u8>, at: int, n: nat)
    requires
        has_at(s, at, decimal_digits(n)),
        at + decimal_digits(n).len() < s.len() ==> !is_digit(s[at + decimal_digits(n).len()]),
    ensures
        digits_end(s, at) == at + decimal_digits(n).len(),
        digits_value(s, at, at + decimal_digits(n).len()) == n,
{
    let d: Seq<u8> = decimal_digits(n);
    lemma_decimal_digits_shape(n);
    assert forall|k: int| at <= k < at + d.len() implies is_digit(s[k]) by {
        assert(s[k] == s.subrange(at, at + d.len())[k - at]);
        assert(is_digit(d[k - at]));
    }
    lemma_digits_run(s, at, at + d.len());
    lemma_digits_value_prefix(s, at, n);
}

/// The value of the digits written for `n`, read from where they stand,
/// whatever follows them.
proof fn lemma_digits_value_prefix(s: Seq<u8>, at: int, n: nat)
    requires
        has_at(s, at, decimal_digits(n)),
    ensures
        digits_value(s, at, at + decimal_digits(n).len()) == n,
    decreases n,
{
    let d: Seq<u8> = decimal_digits(n);
    assert(forall|k: int| 0 <= k < d.len() ==> s[at + k] == #[trigger] s.subrange(
        at,
        at + d.len(),
    )[k]);
    if n >= 10 {
        let head: Seq<u8> = decimal_digits(n / 10);
        assert(s.subrange(at, at + head.len()) =~= head) by {
            assert(d.subrange(0, head.len() as int) =~= head);
        }
        assert(s[at + head.len()] == d[head.len() as int]);
        lemma_digits_value_prefix(s, at, n / 10);
    } else {
        assert(s[at] == d[0]);
        assert(digits_value(s, at, at) == 0);
    }
}

/// A run of digits that ends at a non-digit, or at the end of the text, is
/// where `digits_end` stops.
proof fn lemma_digits_run(s: Seq<u8>, from: int, to: int)
    requires
        0 <= from <= to <= s.len(),
        forall|k: int| from <= k < to ==> is_digit(s[k]),
        to < s.len() ==> !is_digit(s[to]),
    ensures
        digits_end(s, from) == to,
    decreases to - from,
{
    if from < to {
        lemma_digits_run(s, from + 1, to);
    }
}

/// A status record read back gives the exit code it was written for.
pub proof fn lemma_status_record_round_trip(exit_code: i32)
    ensures
        parse_status_record(status_record(exit_code as int)) == Some(exit_code),
{
    let s: Seq<u8> = status_record(exit_code as int);
    let open: Seq<u8> = record_open();
    let num: Seq<u8> = decimal(exit_code as int);
    let n: nat = if exit_code < 0 {
        (-exit_code) as nat
    } else {
        exit_code as nat
    };
    let digits: Seq<u8> = decimal_digits(n);
    lemma_decimal_digits_shape(n);
    assert(s.len() == 13 + num.len() + 1);
    assert(forall|k: int| 0 <= k < 13 ==> s[k] == open[k]);
    assert(forall|k: int| 0 <= k < num.len() ==> s[13 + k] == num[k]);
    assert(s[13 + num.len() as int] == 125u8);
    assert(skip_ws(s, 0) == 0);
    assert(s.subrange(0, 1) =~= seq![123u8]);
    assert(skip_ws(s, 1) == 1);
    assert(s.subrange(1, 12) =~= record_key());
    assert(skip_ws(s, 12) == 12);
    assert(s.subrange(12, 13) =~= seq![58u8]);
    let neg: bool = exit_code < 0;
    let start: int = if neg {
        14
    } else {
        13
    };
    assert(s[13] == num[0]);
    assert(!is_ws(s[13]));
    assert(skip_ws(s, 13) == 13);
    assert(neg <==> s[13] == 45);
    assert(s.subrange(start, start + digits.len()) =~= digits) by {
        assert(forall|k: int|
            0 <= k < digits.len() ==> #[trigger] s[start + k] == if neg {
                num[k + 1]
            } else {
                num[k]
            });
    }
    let end: int = start + digits.len();
    assert(end == 13 + num.len());
    lemma_digits_round_trip(s, start, n);
    assert(s[start] == digits[0]);
    assert(parse_int(s, 13) == Some((exit_code as int, end)));
    assert(skip_ws(s, end) == end);
    assert(s.subrange(end, end + 1) =~= seq![125u8]);
    assert(skip_ws(s, end + 1) == end + 1);
}

/// Looking up what an execution persisted finds the output of that
/// execution; looking up where nothing was persisted finds nothing.
pub proof fn lemma_status_lookup_round_trip(output: CommandOutput)
    ensures
        CommandOutput::spec_from_status_record(Some(status_record(output.exit_code as int)))
            == Some(output),
        CommandOutput::spec_from_status_record(None) is None,
{
    lemma_status_record_round_trip(output.exit_code);
}

} // verus!
