//! Silencing suggestions for a while: durations and the persisted state.
use vstd::prelude::*;
use crate::text::{chars_of, decimal, lowercase_of, opt_view, push_char, push_decimal, to_lowercase, trim, trim_bounds, string_of_range};
use crate::clock::unix_now;

verus! {

/// A length of time, in whole seconds.
#[derive(Debug, Clone, Copy, PartialEq, Eq)]
pub struct HushDuration {
    pub secs: u64,
}

impl HushDuration {
    pub fn as_secs(&self) -> (r: u64)
        ensures
            r == self.secs,
    {
        self.secs
    }
}

/// Why a duration was rejected.
#[derive(Debug, Clone, Copy, PartialEq, Eq)]
pub enum DurationError {
    /// A number is followed by a letter other than `s`, `m`, `h`, `d`.
    InvalidUnit(char),
    /// A run of digits does not fit in 64 bits.
    NumberTooLarge,
    /// The total does not fit in 64 bits of seconds.
    TooLong,
    /// The text names no time at all.
    InvalidFormat,
}

pub open spec fn unit_secs(c: char) -> Option<nat> {
    if c == 's' {
        Some(1)
    } else if c == 'm' {
        Some(60)
    } else if c == 'h' {
        Some(3600)
    } else if c == 'd' {
        Some(86400)
    } else {
        None
    }
}

pub open spec fn is_digit(c: char) -> bool {
    '0' <= c && c <= '9'
}

pub open spec fn digits_value(s: Seq<char>) -> nat
    decreases s.len(),
{
    if s.len() == 0 {
        0
    } else {
        digits_value(s.drop_last()) * 10 + ((s.last() as int - 48) as nat)
    }
}

/// Progress through a duration text: seconds so far and pending digits, or a failure.
pub enum DurationScan {
    Going { total: nat, digits: Seq<char> },
    Failed(DurationError),
}

/// Adds `n` units of `mult` seconds, failing past 64 bits.
pub open spec fn add_units(total: nat, digits: Seq<char>, mult: nat) -> DurationScan {
    if digits_value(digits) > u64::MAX {
        DurationScan::Failed(DurationError::NumberTooLarge)
    } else if total + digits_value(digits) * mult > u64::MAX {
        DurationScan::Failed(DurationError::TooLong)
    } else {
        DurationScan::Going { total: total + digits_value(digits) * mult, digits: Seq::empty() }
    }
}

pub open spec fn scan_char(st: DurationScan, c: char) -> DurationScan {
    match st {
        DurationScan::Failed(e) => st,
        DurationScan::Going { total, digits } => if is_digit(c) {
            DurationScan::Going { total, digits: digits.push(c) }
        } else if digits.len() == 0 {
            st
        } else if digits_value(digits) > u64::MAX {
            DurationScan::Failed(DurationError::NumberTooLarge)
        } else {
            match unit_secs(c) {
                None => DurationScan::Failed(DurationError::InvalidUnit(c)),
                Some(m) => add_units(total, digits, m),
            }
        },
    }
}

pub open spec fn scan(s: Seq<char>) -> DurationScan
    decreases s.len(),
{
    if s.len() == 0 {
        DurationScan::Going { total: 0, digits: Seq::empty() }
    } else {
        scan_char(scan(s.drop_last()), s.last())
    }
}

/// The seconds that lower-cased, trimmed duration text stands for: numbers
/// each followed by a unit (`s`, `m`, `h`, `d`), a trailing bare number
/// counting minutes; other characters before a number are skipped.
pub open spec fn duration_of(s: Seq<char>) -> Result<nat, DurationError> {
    let st = match scan(s) {
        DurationScan::Going { total, digits } => if digits.len() > 0 {
            add_units(total, digits, 60)
        } else {
            scan(s)
        },
        f => f,
    };
    match st {
        DurationScan::Failed(e) => Err(e),
        DurationScan::Going { total, .. } => if total == 0 {
            Err(DurationError::InvalidFormat)
        } else {
            Ok(total)
        },
    }
}

pub open spec fn duration_result(r: Result<HushDuration, DurationError>) -> Result<nat, DurationError> {
    match r {
        Ok(d) => Ok(d.secs as nat),
        Err(e) => Err(e),
    }
}

proof fn lemma_scan_sticky(s: Seq<char>, i: int)
    requires
        0 <= i <= s.len(),
        scan(s.subrange(0, i)) is Failed,
    ensures
        scan(s) == scan(s.subrange(0, i)),
    decreases s.len(),
{
    if i == s.len() {
        assert(s.subrange(0, i) == s);
    } else {
        let d = s.drop_last();
        assert(d.subrange(0, i) == s.subrange(0, i));
        lemma_scan_sticky(d, i);
    }
}

proof fn lemma_digits_grow(s: Seq<char>, c: char)
    requires
        is_digit(c),
    ensures
        digits_value(s.push(c)) == digits_value(s) * 10 + (c as int - 48),
        digits_value(s.push(c)) >= digits_value(s),
{
    assert(s.push(c).drop_last() == s);
}

/// Adds `digits` units of `mult` seconds to `total`, as `add_units` says.
fn add_units_exec(total: u64, value: Option<u64>, mult: u64, Ghost(digits): Ghost<Seq<char>>) -> (r: Result<u64, DurationError>)
    requires
        value is Some ==> value->0 == digits_value(digits),
        value is None ==> digits_value(digits) > u64::MAX,
        mult > 0,
    ensures
        match add_units(total as nat, digits, mult as nat) {
            DurationScan::Failed(e) => r == Err::<u64, DurationError>(e),
            DurationScan::Going { total: t, .. } => r matches Ok(v) && v == t,
        },
{
    match value {
        None => Err(DurationError::NumberTooLarge),
        Some(n) => {
            if n > (u64::MAX - total) / mult {
                assert(total as int + n as int * mult as int > u64::MAX as int) by (nonlinear_arith)
                    requires
                        n > (u64::MAX - total) as int / mult as int,
                        mult > 0,
                ;
                Err(DurationError::TooLong)
            } else {
                assert(total as int + n as int * mult as int <= u64::MAX as int) by (nonlinear_arith)
                    requires
                        n <= (u64::MAX - total) as int / mult as int,
                        mult > 0,
                ;
                Ok(total + n * mult)
            }
        },
    }
}

/// Reads lower-cased, trimmed duration text such as `2h30m` into seconds.
pub fn parse_duration_lowered(s: &str) -> (r: Result<HushDuration, DurationError>)
    ensures
        duration_result(r) == duration_of(s@),
{
    let v = chars_of(s);
    let mut total: u64 = 0;
    let mut value: Option<u64> = Some(0);
    let mut pending: usize = 0;
    let mut i: usize = 0;
    let ghost mut digits: Seq<char> = Seq::empty();
    assert(v@.subrange(0, 0) =~= Seq::<char>::empty());
    while i < v.len()
        invariant
            i <= v@.len(),
            v@ == s@,
            scan(v@.subrange(0, i as int)) == (DurationScan::Going { total: total as nat, digits }),
            pending == digits.len(),
            pending <= i,
            value is Some ==> value->0 == digits_value(digits),
            value is None ==> digits_value(digits) > u64::MAX,
        decreases v@.len() - i,
    {
        let c = v[i];
        assert(v@.subrange(0, i + 1).drop_last() == v@.subrange(0, i as int));
        if '0' <= c && c <= '9' {
            let d = (c as u32 - 48) as u64;
            proof {
                lemma_digits_grow(digits, c);
            }
            value = match value {
                Some(n) => if n > (u64::MAX - d) / 10 {
                    assert(n * 10 + d > u64::MAX) by (nonlinear_arith)
                        requires
                            n > (u64::MAX - d) / 10,
                            d <= 9,
                    ;
                    None
                } else {
                    assert(n * 10 + d <= u64::MAX) by (nonlinear_arith)
                        requires
                            n <= (u64::MAX - d) / 10,
                            d <= 9,
                    ;
                    Some(n * 10 + d)
                },
                None => None,
            };
            proof {
                digits = digits.push(c);
            }
            pending = pending + 1;
        } else if pending > 0 {
            let mult: u64 = if c == 's' {
                1
            } else if c == 'm' {
                60
            } else if c == 'h' {
                3600
            } else if c == 'd' {
                86400
            } else {
                0
            };
            if value.is_none() {
                proof {
                    lemma_scan_sticky(v@, i + 1);
                }
                return Err(DurationError::NumberTooLarge);
            }
            if mult == 0 {
                proof {
                    lemma_scan_sticky(v@, i + 1);
                }
                return Err(DurationError::InvalidUnit(c));
            }
            match add_units_exec(total, value, mult, Ghost(digits)) {
                Ok(t) => {
                    total = t;
                },
                Err(e) => {
                    proof {
                        lemma_scan_sticky(v@, i + 1);
                    }
                    return Err(e);
                },
            }
            value = Some(0);
            pending = 0;
            proof {
                digits = Seq::empty();
            }
        }
        i = i + 1;
    }
    assert(v@.subrange(0, i as int) == v@);
    if pending > 0 {
        match add_units_exec(total, value, 60, Ghost(digits)) {
            Ok(t) => {
                total = t;
            },
            Err(e) => {
                return Err(e);
            },
        }
    }
    if total == 0 {
        return Err(DurationError::InvalidFormat);
    }
    Ok(HushDuration { secs: total })
}

/// Reads a duration such as `30m`, `1h`, `2h30m` or `1d`; surrounding white
/// space and letter case do not matter, and a bare number counts minutes.
pub fn parse_duration(s: &str) -> (r: Result<HushDuration, DurationError>)
    ensures
        duration_result(r) == duration_of(lowercase_of(trim(s@))),
{
    let v = chars_of(s);
    let (a, b) = trim_bounds(&v, 0, v.len());
    assert(v@.subrange(0, v@.len() as int) == v@);
    let t = string_of_range(&v, a, b);
    let lowered = to_lowercase(t.as_str());
    parse_duration_lowered(lowered.as_str())
}

pub open spec fn duration_message(e: DurationError) -> Seq<char> {
    match e {
        DurationError::InvalidUnit(c) => "Invalid duration unit: "@.push(c) + ". Use s, m, h, or d."@,
        DurationError::NumberTooLarge => "number too large to fit in target type"@,
        DurationError::TooLong => "Duration too long."@,
        DurationError::InvalidFormat => "Invalid duration format. Examples: '30m', '1h', '2h30m', '1d'"@,
    }
}

impl DurationError {
    /// The message shown to the user.
    pub fn message(&self) -> (r: String)
        ensures
            r@ == duration_message(*self),
    {
        match self {
            DurationError::InvalidUnit(c) => {
                let mut s = String::from_str("Invalid duration unit: ");
                push_char(&mut s, *c);
                s.append(". Use s, m, h, or d.");
                s
            },
            DurationError::NumberTooLarge => String::from_str("number too large to fit in target type"),
            DurationError::TooLong => String::from_str("Duration too long."),
            DurationError::InvalidFormat => String::from_str(
                "Invalid duration format. Examples: '30m', '1h', '2h30m', '1d'",
            ),
        }
    }
}

/// Persisted silence: `None` silences for ever, `Some(0)` not at all, and
/// `Some(t)` until Unix second `t`.
#[derive(Debug, Default, Clone, Copy, PartialEq, Eq)]
pub struct HushState {
    pub hush_until: Option<i64>,
}

pub open spec fn hushed_at(st: HushState, now: int) -> bool {
    match st.hush_until {
        None => true,
        Some(u) => u != 0 && u > now,
    }
}

/// Whole seconds left rendered as `Ns`, `Nm` or `Nh Mm`.
pub open spec fn remaining_text(rem: nat) -> Seq<char> {
    if rem < 60 {
        decimal(rem) + "s"@
    } else if rem < 3600 {
        decimal(rem / 60) + "m"@
    } else {
        decimal(rem / 3600) + "h "@ + decimal((rem % 3600) / 60) + "m"@
    }
}

pub open spec fn remaining_at_spec(st: HushState, now: int) -> Option<Seq<char>> {
    match st.hush_until {
        None => Some("forever"@),
        Some(u) => if u == 0 || u <= now {
            None
        } else {
            Some(remaining_text((u - now) as nat))
        },
    }
}

impl HushState {
    /// Whether suggestions are silenced at Unix second `now`.
    pub fn is_hushed_at(&self, now: i64) -> (r: bool)
        ensures
            r == hushed_at(*self, now as int),
    {
        match self.hush_until {
            None => true,
            Some(0) => false,
            Some(until) => until > now,
        }
    }

    /// Time left at Unix second `now`, if silenced for a while.
    pub fn remaining_at(&self, now: i64) -> (r: Option<String>)
        ensures
            opt_view(r) == remaining_at_spec(*self, now as int),
    {
        match self.hush_until {
            None => Some(String::from_str("forever")),
            Some(0) => None,
            Some(until) => {
                if until <= now {
                    return None;
                }
                let rem: u64 = (until as i128 - now as i128) as u64;
                let mut s = String::new();
                if rem < 60 {
                    push_decimal(&mut s, rem);
                    s.append("s");
                } else if rem < 3600 {
                    push_decimal(&mut s, rem / 60);
                    s.append("m");
                } else {
                    push_decimal(&mut s, rem / 3600);
                    s.append("h ");
                    push_decimal(&mut s, (rem % 3600) / 60);
                    s.append("m");
                }
                Some(s)
            },
        }
    }

    /// Whether suggestions are silenced now.
    pub fn is_hushed(&self) -> (r: bool)
        ensures
            self.hush_until is None ==> r,
            self.hush_until == Some(0i64) ==> !r,
            exists|now: int| now >= 0 && r == hushed_at(*self, now),
    {
        let now = unix_now();
        let r = self.is_hushed_at(now);
        assert(now >= 0 && r == hushed_at(*self, now as int));
        r
    }

    /// Time left now, if silenced for a while.
    pub fn remaining(&self) -> (r: Option<String>)
        ensures
            self.hush_until is None ==> opt_view(r) == Some("forever"@),
            self.hush_until == Some(0i64) ==> r is None,
            exists|now: int| now >= 0 && opt_view(r) == remaining_at_spec(*self, now),
    {
        let now = unix_now();
        let r = self.remaining_at(now);
        assert(now >= 0 && opt_view(r) == remaining_at_spec(*self, now as int));
        r
    }

    /// The state that silences for `duration` from `now`, saturating at the
    /// largest time.
    pub fn until(now: i64, duration: HushDuration) -> (r: HushState)
        ensures
            now as int + duration.secs as int <= i64::MAX ==> r.hush_until == Some((now + duration.secs) as i64),
            now as int + duration.secs as int > i64::MAX ==> r.hush_until == Some(i64::MAX),
    {
        if (now as i128) + (duration.secs as i128) > i64::MAX as i128 {
            HushState { hush_until: Some(i64::MAX) }
        } else {
            HushState { hush_until: Some((now as i128 + duration.secs as i128) as i64) }
        }
    }
}

/// Whether duration text asks to silence for ever: `forever`, in any case.
pub fn is_forever(text: &str) -> (r: bool)
    ensures
        r == (lowercase_of(text@) == "forever"@),
{
    let lowered = to_lowercase(text);
    lowered == String::from_str("forever")
}

/// The state that `hush <text>` sets at Unix second `now`.
pub fn hush_state_for(text: &str, now: i64) -> (r: Result<HushState, DurationError>)
    ensures
        lowercase_of(text@) == "forever"@ ==> r == Ok::<HushState, DurationError>(HushState { hush_until: None }),
        lowercase_of(text@) != "forever"@ ==> match duration_of(lowercase_of(trim(text@))) {
            Err(e) => r == Err::<HushState, DurationError>(e),
            Ok(secs) => r matches Ok(st) && st.hush_until == Some(
                if now as int + secs <= i64::MAX { (now as int + secs) as i64 } else { i64::MAX },
            ),
        },
{
    if is_forever(text) {
        return Ok(HushState { hush_until: None });
    }
    match parse_duration(text) {
        Ok(d) => Ok(HushState::until(now, d)),
        Err(e) => Err(e),
    }
}


} // verus!
