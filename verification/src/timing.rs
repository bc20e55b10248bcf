//! Parsing of the timing stream. Each line holds exactly two space-separated
//! fields: a non-negative decimal delay in seconds and a non-negative integer
//! byte count. The delay is decomposed into whole seconds and sub-second
//! nanoseconds, which later drives the pacing of the replay; its original
//! decimal spelling is retained for pass-through into the frame metadata.

use vstd::prelude::*;

use crate::errors::ReplayError;
use crate::text::copy_range;
use crate::text::find_byte;
use crate::text::first_index_of;
use crate::text::lemma_first_index_of_unique;

verus! {

/// ASCII decimal digit.
pub open spec fn is_digit(b: u8) -> bool {
    48 <= b <= 57
}

/// Numeric value of an ASCII digit.
pub open spec fn digit_val(b: u8) -> int {
    b - 48
}

/// Every byte of `s` is an ASCII digit.
pub open spec fn all_digits(s: Seq<u8>) -> bool {
    forall|k: int| 0 <= k < s.len() ==> is_digit(s[k])
}

/// Value of a string of decimal digits, most significant digit first.
pub open spec fn dec_val(s: Seq<u8>) -> int
    decreases s.len(),
{
    if s.len() == 0 {
        0
    } else {
        dec_val(s.drop_last()) * 10 + digit_val(s.last())
    }
}

/// A well-formed unsigned integer token: one or more digits.
pub open spec fn is_uint_token(s: Seq<u8>) -> bool {
    s.len() > 0 && all_digits(s)
}

/// The integer part of a delay token: the bytes before the first dot, or the
/// whole token when no dot occurs.
pub open spec fn int_part(s: Seq<u8>) -> Seq<u8> {
    s.take(first_index_of(s, 46))
}

/// The fractional part of a delay token: the bytes after the first dot, or
/// empty when no dot occurs.
pub open spec fn frac_part(s: Seq<u8>) -> Seq<u8> {
    if first_index_of(s, 46) == s.len() {
        Seq::empty()
    } else {
        s.skip(first_index_of(s, 46) + 1)
    }
}

/// A well-formed delay token: one or more digits, optionally followed by a
/// dot and further digits (possibly none).
pub open spec fn is_delay_token(s: Seq<u8>) -> bool {
    is_uint_token(int_part(s)) && all_digits(frac_part(s))
}

/// Ten to the `n`.
pub open spec fn pow10(n: nat) -> int
    decreases n,
{
    if n == 0 {
        1
    } else {
        10 * pow10((n - 1) as nat)
    }
}

/// The fractional digits scaled to nanoseconds: the first nine digits, padded
/// on the right with zero digits up to nine.
pub open spec fn frac9(f: Seq<u8>) -> Seq<u8> {
    if f.len() >= 9 {
        f.take(9)
    } else {
        f.add(Seq::new((9 - f.len()) as nat, |k: int| 48u8))
    }
}

/// Nanosecond value carried by a fractional-digit token.
pub open spec fn nanos_val(f: Seq<u8>) -> int {
    dec_val(frac9(f))
}

/// A well-formed timing line: exactly one space, a well-formed delay before
/// it, a well-formed byte count after it, both values in machine range.
pub open spec fn valid_timing_line(l: Seq<u8>) -> bool {
    let sp = first_index_of(l, 32);
    &&& sp < l.len()
    &&& first_index_of(l.skip(sp + 1), 32) == l.skip(sp + 1).len()
    &&& is_delay_token(l.take(sp))
    &&& dec_val(int_part(l.take(sp))) <= u64::MAX
    &&& is_uint_token(l.skip(sp + 1))
    &&& dec_val(l.skip(sp + 1)) <= usize::MAX
}

/// The record a well-formed timing line denotes.
pub struct SpecTimingRecord {
    /// Whole seconds of the delay.
    pub delay_secs: int,
    /// Sub-second nanoseconds of the delay.
    pub delay_nanos: int,
    /// Declared size of the matching typescript chunk.
    pub byte_count: int,
    /// The delay field exactly as it was spelled.
    pub delay_token: Seq<u8>,
}

/// Meaning of a well-formed timing line.
pub open spec fn spec_parse_timing_line(l: Seq<u8>) -> SpecTimingRecord {
    let sp = first_index_of(l, 32);
    let tok = l.take(sp);
    SpecTimingRecord {
        delay_secs: dec_val(int_part(tok)),
        delay_nanos: nanos_val(frac_part(tok)),
        byte_count: dec_val(l.skip(sp + 1)),
        delay_token: tok,
    }
}

/// One parsed timing record: a delay (decomposed for pacing, and kept as its
/// original spelling for the frame metadata) and a chunk byte count.
#[derive(Debug, PartialEq, Eq)]
pub struct TimingRecord {
    /// Whole seconds of the delay.
    pub delay_secs: u64,
    /// Sub-second nanoseconds of the delay; at most 999 999 999.
    pub delay_nanos: u32,
    /// Declared size of the matching typescript chunk.
    pub byte_count: usize,
    /// The delay field exactly as it was spelled.
    pub delay_token: Vec<u8>,
}

impl View for TimingRecord {
    type V = SpecTimingRecord;

    open spec fn view(&self) -> SpecTimingRecord {
        SpecTimingRecord {
            delay_secs: self.delay_secs as int,
            delay_nanos: self.delay_nanos as int,
            byte_count: self.byte_count as int,
            delay_token: self.delay_token@,
        }
    }
}

/// What `parse_timing_line` promises of its result for a given line. The
/// nanosecond bound keeps the pacing decomposition valid by construction.
pub open spec fn parse_post(l: Seq<u8>, r: Result<TimingRecord, ReplayError>) -> bool {
    match r {
        Ok(rec) => valid_timing_line(l) && rec@ == spec_parse_timing_line(l)
            && rec.delay_nanos <= 999_999_999,
        Err(e) => !valid_timing_line(l) && e == ReplayError::MalformedTimingLine,
    }
}

/// A digit string is non-negative.
pub proof fn lemma_dec_val_nonneg(s: Seq<u8>)
    requires
        all_digits(s),
    ensures
        dec_val(s) >= 0,
    decreases s.len(),
{
    if s.len() > 0 {
        assert(all_digits(s.drop_last())) by {
            assert(forall|k: int| 0 <= k < s.len() - 1 ==> s.drop_last()[k] == s[k]);
        }
        lemma_dec_val_nonneg(s.drop_last());
    }
}

/// Reading one more digit multiplies the value by ten and adds the digit.
pub proof fn lemma_dec_val_take_step(s: Seq<u8>, i: int)
    requires
        0 <= i < s.len(),
    ensures
        dec_val(s.take(i + 1)) == dec_val(s.take(i)) * 10 + digit_val(s[i]),
{
    assert(s.take(i + 1).drop_last() =~= s.take(i));
    assert(s.take(i + 1).last() == s[i]);
}

/// A digit-string prefix never exceeds the whole string's value.
pub proof fn lemma_dec_val_take_mono(s: Seq<u8>, i: int)
    requires
        all_digits(s),
        0 <= i <= s.len(),
    ensures
        dec_val(s.take(i)) <= dec_val(s),
    decreases s.len() - i,
{
    if i == s.len() {
        assert(s.take(i) =~= s);
    } else {
        lemma_dec_val_take_step(s, i);
        assert(all_digits(s.take(i))) by {
            assert(forall|k: int| 0 <= k < i ==> s.take(i)[k] == s[k]);
        }
        lemma_dec_val_nonneg(s.take(i));
        lemma_dec_val_take_mono(s, i + 1);
    }
}

/// Ten to any power is positive.
pub proof fn lemma_pow10_pos(n: nat)
    ensures
        pow10(n) >= 1,
    decreases n,
{
    if n > 0 {
        lemma_pow10_pos((n - 1) as nat);
    }
}

/// Ten to the power is monotone in the exponent.
pub proof fn lemma_pow10_mono(a: nat, b: nat)
    requires
        a <= b,
    ensures
        pow10(a) <= pow10(b),
    decreases b,
{
    if a < b {
        lemma_pow10_mono(a, (b - 1) as nat);
        lemma_pow10_pos((b - 1) as nat);
    }
}

/// Checks that `v[from..to]` consists of decimal digits only.
fn digits_in_range(v: &Vec<u8>, from: usize, to: usize) -> (r: bool)
    requires
        from <= to <= v@.len(),
    ensures
        r == all_digits(v@.subrange(from as int, to as int)),
{
    let ghost sub = v@.subrange(from as int, to as int);
    let mut i: usize = from;
    while i < to
        invariant
            from <= i <= to <= v@.len(),
            sub == v@.subrange(from as int, to as int),
            forall|k: int| 0 <= k < i - from ==> is_digit(sub[k]),
        decreases to - i,
    {
        let b = v[i];
        proof {
            assert(sub[i - from] == v@[i as int]);
        }
        if b < 48 || b > 57 {
            return false;
        }
        i = i + 1;
    }
    true
}

/// Parses `v[from..to]` as a decimal `u64`; `None` when the range is not a
/// well-formed integer token or its value does not fit.
fn parse_u64_digits(v: &Vec<u8>, from: usize, to: usize) -> (r: Option<u64>)
    requires
        from <= to <= v@.len(),
    ensures
        ({
            let sub = v@.subrange(from as int, to as int);
            match r {
                Some(n) => is_uint_token(sub) && n as int == dec_val(sub),
                None => !(is_uint_token(sub) && dec_val(sub) <= u64::MAX),
            }
        }),
{
    let ghost sub = v@.subrange(from as int, to as int);
    if from == to {
        return None;
    }
    let mut acc: u64 = 0;
    let mut i: usize = from;
    while i < to
        invariant
            from <= i <= to <= v@.len(),
            sub == v@.subrange(from as int, to as int),
            all_digits(sub.take(i - from)),
            acc as int == dec_val(sub.take(i - from)),
        decreases to - i,
    {
        let b = v[i];
        proof {
            assert(sub[i - from] == v@[i as int]);
        }
        if b < 48 || b > 57 {
            proof {
                assert(!is_digit(sub[i - from]));
            }
            return None;
        }
        let d: u64 = (b - 48) as u64;
        proof {
            lemma_dec_val_take_step(sub, i - from);
            if all_digits(sub) {
                lemma_dec_val_take_mono(sub, i - from + 1);
            }
        }
        if acc > u64::MAX / 10 {
            return None;
        }
        let acc10: u64 = acc * 10;
        if d > u64::MAX - acc10 {
            return None;
        }
        acc = acc10 + d;
        i = i + 1;
        proof {
            assert(all_digits(sub.take(i - from))) by {
                assert(forall|k: int| 0 <= k < i - from ==> sub.take(i - from)[k] == sub[k]);
            }
        }
    }
    proof {
        assert(sub.take(to - from) =~= sub);
    }
    Some(acc)
}

/// Nanosecond value of the fractional digits `v[from..to]`: the first nine of
/// them, padded on the right with zeros. This is the sub-second half of the
/// pacing decomposition.
fn parse_nanos(v: &Vec<u8>, from: usize, to: usize) -> (r: u32)
    requires
        from <= to <= v@.len(),
        all_digits(v@.subrange(from as int, to as int)),
    ensures
        r as int == nanos_val(v@.subrange(from as int, to as int)),
        r <= 999_999_999,
{
    let ghost sub = v@.subrange(from as int, to as int);
    let ghost f9 = frac9(sub);
    proof {
        assert(f9.len() == 9);
        assert(all_digits(f9)) by {
            assert forall|k: int| 0 <= k < 9 implies is_digit(f9[k]) by {
                if k < sub.len() {
                    assert(f9[k] == sub[k]);
                } else {
                    assert(f9[k] == 48);
                }
            }
        }
        assert(pow10(0) == 1);
        assert(pow10(1) == 10);
        assert(pow10(2) == 100);
        assert(pow10(3) == 1000);
        assert(pow10(4) == 10000);
        assert(pow10(5) == 100000);
        assert(pow10(6) == 1000000);
        assert(pow10(7) == 10000000);
        assert(pow10(8) == 100000000);
        assert(pow10(9) == 1000000000);
    }
    let mut acc: u32 = 0;
    let mut i: usize = 0;
    while i < 9
        invariant
            i <= 9,
            from <= to <= v@.len(),
            sub == v@.subrange(from as int, to as int),
            all_digits(sub),
            f9 == frac9(sub),
            f9.len() == 9,
            all_digits(f9),
            acc as int == dec_val(f9.take(i as int)),
            (acc as int) < pow10(i as nat),
            pow10(9) == 1000000000,
        decreases 9 - i,
    {
        proof {
            if i < sub.len() {
                assert(f9[i as int] == sub[i as int]);
                assert(sub[i as int] == v@[from + i]);
                assert(is_digit(sub[i as int]));
            } else {
                assert(f9[i as int] == 48);
            }
            lemma_dec_val_take_step(f9, i as int);
            assert(pow10((i + 1) as nat) == 10 * pow10(i as nat));
            lemma_pow10_mono((i + 1) as nat, 9);
        }
        let d: u32 = if i < to - from {
            (v[from + i] - 48) as u32
        } else {
            0
        };
        proof {
            assert(digit_val(f9[i as int]) == d as int);
        }
        acc = acc * 10 + d;
        i = i + 1;
    }
    proof {
        assert(f9.take(9) =~= f9);
    }
    acc
}

/// Parses one line of the timing stream into a record. Succeeds exactly on
/// well-formed lines (`<delay> <byte count>`, one space, both fields numeric
/// and in range); any other line is a malformed timing line.
pub fn parse_timing_line(line: &Vec<u8>) -> (r: Result<TimingRecord, ReplayError>)
    ensures
        parse_post(line@, r),
{
    let len = line.len();
    proof {
        assert(line@.skip(0) =~= line@);
    }
    let sp = find_byte(line, 32, 0);
    if sp == len {
        return Err(ReplayError::MalformedTimingLine);
    }
    let sp2 = find_byte(line, 32, sp + 1);
    if sp2 < len {
        return Err(ReplayError::MalformedTimingLine);
    }
    let ghost tok = line@.take(sp as int);
    let ghost cnt = line@.skip(sp as int + 1);

    // Locate the first dot of the delay token.
    let dotall = find_byte(line, 46, 0);
    let dot: usize = if dotall < sp {
        dotall
    } else {
        sp
    };
    proof {
        assert(tok.len() == sp as int);
        assert(forall|k: int| 0 <= k < sp ==> tok[k] == line@[k]);
        lemma_first_index_of_unique(tok, 46, dot as int);
        assert(line@.subrange(0, dot as int) =~= int_part(tok));
    }

    // Integer part of the delay: the whole seconds.
    let secs = match parse_u64_digits(line, 0, dot) {
        Some(s) => s,
        None => {
            return Err(ReplayError::MalformedTimingLine);
        },
    };

    // Fractional part of the delay: the sub-second nanoseconds.
    proof {
        if dot < sp {
            assert(line@.subrange(dot as int + 1, sp as int) =~= frac_part(tok));
        } else {
            assert(line@.subrange(sp as int, sp as int) =~= frac_part(tok));
        }
    }
    let frac_from: usize = if dot < sp {
        dot + 1
    } else {
        sp
    };
    if !digits_in_range(line, frac_from, sp) {
        return Err(ReplayError::MalformedTimingLine);
    }
    let nanos = parse_nanos(line, frac_from, sp);

    // The byte count field.
    proof {
        assert(line@.subrange(sp as int + 1, len as int) =~= cnt);
    }
    let cval = match parse_u64_digits(line, sp + 1, len) {
        Some(c) => c,
        None => {
            return Err(ReplayError::MalformedTimingLine);
        },
    };
    if cval > usize::MAX as u64 {
        return Err(ReplayError::MalformedTimingLine);
    }

    let delay_token = copy_range(line, 0, sp);
    proof {
        assert(delay_token@ =~= tok);
        assert(valid_timing_line(line@));
    }
    let rec = TimingRecord {
        delay_secs: secs,
        delay_nanos: nanos,
        byte_count: cval as usize,
        delay_token,
    };
    proof {
        assert(rec@ == spec_parse_timing_line(line@));
    }
    Ok(rec)
}

/// Parsing is a function of the line alone: any two results the contract of
/// `parse_timing_line` admits for the same line agree, so re-parsing a line
/// yields an identical record.
pub proof fn lemma_parse_deterministic(
    l: Seq<u8>,
    r1: Result<TimingRecord, ReplayError>,
    r2: Result<TimingRecord, ReplayError>,
)
    requires
        parse_post(l, r1),
        parse_post(l, r2),
    ensures
        match (r1, r2) {
            (Ok(a), Ok(b)) => a@ == b@,
            (Err(a), Err(b)) => a == b,
            _ => false,
        },
{
}

} // verus!
