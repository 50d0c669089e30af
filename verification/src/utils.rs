//! Small helpers shared across the library: time-unit conversions on
//! nanosecond counts, bounded arithmetic, and layout maths for the
//! terminal front end.

use vstd::prelude::*;
use vstd::string::StringExecFns;
use vstd::string::StrSliceExecFns;

verus! {

/// Convert a duration in nanoseconds to whole milliseconds.
pub fn duration_to_ms_u64(nanos: u64) -> (r: u64)
    ensures
        r == nanos / 1_000_000,
{
    nanos / 1_000_000
}

/// Convert a duration in nanoseconds to whole microseconds.
pub fn duration_to_us_u64(nanos: u64) -> (r: u64)
    ensures
        r == nanos / 1_000,
{
    nanos / 1_000
}

/// Widen a duration in nanoseconds for callers that accumulate long spans.
pub fn duration_to_ns_u128(nanos: u64) -> (r: u128)
    ensures
        r == nanos as u128,
{
    nanos as u128
}

/// Ensure a value does not exceed a maximum.
pub fn min_with_safety(value: usize, max_value: usize) -> (r: usize)
    ensures
        r == if value <= max_value { value as int } else { max_value as int },
{
    if value <= max_value {
        value
    } else {
        max_value
    }
}

/// Ensure a value meets a minimum threshold.
pub fn max_with_minimum(value: usize, min_value: usize) -> (r: usize)
    ensures
        r == if value >= min_value { value as int } else { min_value as int },
{
    if value >= min_value {
        value
    } else {
        min_value
    }
}

/// The decimal digit character for one digit value.
pub open spec fn digit_char(d: int) -> char {
    if d == 0 {
        '0'
    } else if d == 1 {
        '1'
    } else if d == 2 {
        '2'
    } else if d == 3 {
        '3'
    } else if d == 4 {
        '4'
    } else if d == 5 {
        '5'
    } else if d == 6 {
        '6'
    } else if d == 7 {
        '7'
    } else if d == 8 {
        '8'
    } else {
        '9'
    }
}

/// The decimal digits of `n`, most significant first.
pub open spec fn dec_digits(n: int) -> Seq<char>
    decreases n,
{
    if n < 10 {
        seq![digit_char(n)]
    } else {
        dec_digits(n / 10).push(digit_char(n % 10))
    }
}

/// The string holding one decimal digit.
fn digit_str(d: u64) -> (r: &'static str)
    requires
        d < 10,
    ensures
        r@ == seq![digit_char(d as int)],
{
    proof {
        reveal_strlit("0");
        reveal_strlit("1");
        reveal_strlit("2");
        reveal_strlit("3");
        reveal_strlit("4");
        reveal_strlit("5");
        reveal_strlit("6");
        reveal_strlit("7");
        reveal_strlit("8");
        reveal_strlit("9");
    }
    let r = if d == 0 {
        "0"
    } else if d == 1 {
        "1"
    } else if d == 2 {
        "2"
    } else if d == 3 {
        "3"
    } else if d == 4 {
        "4"
    } else if d == 5 {
        "5"
    } else if d == 6 {
        "6"
    } else if d == 7 {
        "7"
    } else if d == 8 {
        "8"
    } else {
        "9"
    };
    proof {
        assert(r@ =~= seq![digit_char(d as int)]);
    }
    r
}

/// Format an integer in decimal.
pub fn u64_to_dec_string(n: u64) -> (r: String)
    ensures
        r@ == dec_digits(n as int),
    decreases n,
{
    if n < 10 {
        String::from_str(digit_str(n))
    } else {
        let mut s = u64_to_dec_string(n / 10);
        s.append(digit_str(n % 10));
        proof {
            assert(s@ =~= dec_digits(n as int));
        }
        s
    }
}

/// The smaller of two values.
pub open spec fn min_spec(a: int, b: int) -> int {
    if a <= b {
        a
    } else {
        b
    }
}

/// A duration in tenths of a unit, rounded to the nearest tenth, written
/// with one decimal place.
pub open spec fn tenths_str(tenths: int) -> Seq<char> {
    dec_digits(tenths / 10) + seq!['.'] + seq![digit_char(tenths % 10)]
}

/// Write `tenths` tenths as a number with one decimal place.
fn format_tenths(tenths: u128) -> (r: String)
    requires
        tenths <= u64::MAX,
    ensures
        r@ == tenths_str(tenths as int),
{
    let mut s = u64_to_dec_string((tenths / 10) as u64);
    s.append(".");
    s.append(digit_str((tenths % 10) as u64));
    proof {
        reveal_strlit(".");
        assert(s@ =~= tenths_str(tenths as int));
    }
    s
}

/// Format a duration in nanoseconds as milliseconds with one decimal
/// place, rounded to the nearest tenth.
pub fn format_duration_ms(nanos: u64) -> (r: String)
    ensures
        r@ == tenths_str((nanos + 50_000) / 100_000),
{
    format_tenths((nanos as u128 + 50_000) / 100_000)
}

/// Format a duration in nanoseconds with high precision: microseconds
/// with one decimal place below one millisecond, milliseconds above.
pub fn format_duration_us(nanos: u64) -> (r: String)
    ensures
        r@ == if nanos < 1_000_000 {
            tenths_str((nanos + 50) / 100) + "\u{3bc}s"@
        } else {
            tenths_str((nanos + 50_000) / 100_000) + "ms"@
        },
{
    if nanos < 1_000_000 {
        let mut s = format_tenths((nanos as u128 + 50) / 100);
        s.append("\u{3bc}s");
        s
    } else {
        let mut s = format_tenths((nanos as u128 + 50_000) / 100_000);
        s.append("ms");
        s
    }
}

/// Format an optional duration as milliseconds with one decimal place,
/// or a placeholder when no sample exists yet.
pub fn format_optional_duration_ms(nanos: Option<u64>) -> (r: String)
    ensures
        r@ == match nanos {
            Some(n) => tenths_str((n + 50_000) / 100_000),
            None => "???"@,
        },
{
    match nanos {
        Some(n) => format_duration_ms(n),
        None => String::from_str("???"),
    }
}

/// Format an optional duration with high precision, or a placeholder
/// when no sample exists yet.
pub fn format_optional_duration_us(nanos: Option<u64>) -> (r: String)
    ensures
        r@ == match nanos {
            Some(n) => if n < 1_000_000 {
                tenths_str((n + 50) / 100) + "\u{3bc}s"@
            } else {
                tenths_str((n + 50_000) / 100_000) + "ms"@
            },
            None => "???"@,
        },
{
    match nanos {
        Some(n) => format_duration_us(n),
        None => String::from_str("???"),
    }
}

/// Elapsed nanoseconds between a start instant and now, clamped at zero
/// if the clock ran backwards.
pub fn calculate_precise_elapsed(start: u64, now: u64) -> (r: u64)
    ensures
        r == if now >= start {
            now - start
        } else {
            0int
        },
{
    if now >= start {
        now - start
    } else {
        0
    }
}

/// Jitter between consecutive timing measurements: the absolute
/// difference, in nanoseconds.
pub fn calculate_timing_jitter(current: u64, previous: u64) -> (r: u64)
    ensures
        r == if current >= previous {
            current - previous
        } else {
            previous - current
        },
{
    if current >= previous {
        current - previous
    } else {
        previous - current
    }
}

/// Mean of the last `window_size` values (or of all of them, if fewer),
/// truncated to nanoseconds; nothing for an empty input or window.
pub fn calculate_timing_moving_average(values: &[u64], window_size: usize) -> (r: Option<u64>)
    ensures
        r == if values@.len() == 0 || window_size == 0 {
            None::<u64>
        } else {
            let w = min_spec(window_size as int, values@.len() as int);
            let tail = values@.skip(values@.len() - w);
            Some((crate::hop_stats::sum_ns(tail) / w) as u64)
        },
{
    if values.len() == 0 || window_size == 0 {
        return None;
    }
    let n = values.len();
    let w = min_with_safety(window_size, n);
    let start = n - w;
    let ghost tail = values@.skip(start as int);
    proof {
        crate::hop_stats::lemma_sum_ns_bounds(tail);
    }
    let mut sum: u128 = 0;
    let mut j: usize = start;
    proof {
        assert(tail.take(0) =~= Seq::<u64>::empty());
    }
    while j < n
        invariant
            start <= j <= n,
            n == values@.len(),
            start == n - w,
            0 < w <= n,
            tail == values@.skip(start as int),
            sum == crate::hop_stats::sum_ns(tail.take(j - start)),
            0 <= sum <= crate::hop_stats::sum_ns(tail),
            0 <= crate::hop_stats::sum_ns(tail) <= tail.len() * (u64::MAX as int),
        decreases n - j,
    {
        proof {
            assert(tail.take(j - start + 1).drop_last() =~= tail.take(j - start));
            assert(tail.take(j - start + 1).last() == values@[j as int]);
            lemma_sum_tail_prefix(tail, j - start + 1);
        }
        sum = sum + values[j] as u128;
        j = j + 1;
    }
    proof {
        assert(tail.take(w as int) =~= tail);
        vstd::arithmetic::div_mod::lemma_div_is_ordered(
            crate::hop_stats::sum_ns(tail),
            tail.len() * (u64::MAX as int),
            w as int,
        );
        vstd::arithmetic::div_mod::lemma_div_by_multiple(u64::MAX as int, w as int);
        vstd::arithmetic::mul::lemma_mul_is_commutative(tail.len() as int, u64::MAX as int);
        vstd::arithmetic::div_mod::lemma_div_pos_is_pos(crate::hop_stats::sum_ns(tail), w as int);
    }
    Some((sum / w as u128) as u64)
}

proof fn lemma_sum_tail_prefix(s: Seq<u64>, i: int)
    requires
        0 <= i <= s.len(),
    ensures
        crate::hop_stats::sum_ns(s.take(i)) <= crate::hop_stats::sum_ns(s),
    decreases s.len() - i,
{
    if i < s.len() {
        lemma_sum_tail_prefix(s, i + 1);
        assert(s.take(i + 1).drop_last() =~= s.take(i));
    } else {
        assert(s.take(i) =~= s);
    }
}

/// The standard library's monotonic clock instant, opaque to the
/// library; elapsed times are computed outside and handed in as plain
/// nanosecond counts.
#[verifier::external_type_specification]
#[verifier::external_body]
pub struct ExInstant(std::time::Instant);

/// Relies on std::time::Instant::now: reads the monotonic clock.
/// Nothing is promised of the value.
#[verifier::external_body]
pub fn get_monotonic_timestamp() -> std::time::Instant {
    std::time::Instant::now()
}

/// Relies on std::time::SystemTime::now: reads the system clock as
/// nanoseconds since the Unix epoch.  Nothing is promised of the value.
#[verifier::external_body]
pub fn get_system_timestamp_ns() -> u128 {
    std::time::SystemTime::now()
        .duration_since(std::time::UNIX_EPOCH)
        .unwrap_or_default()
        .as_nanos()
}

/// Truncate a hostname to `max_len` characters, marking the cut with an
/// ellipsis; a short enough name passes through unchanged.
pub fn truncate_hostname(hostname: &str, max_len: usize) -> (r: String)
    ensures
        r@ == if hostname@.len() > max_len {
            let keep = if max_len >= 3 {
                max_len - 3
            } else {
                0int
            };
            hostname@.subrange(0, keep) + "..."@
        } else {
            hostname@
        },
{
    let n = hostname.unicode_len();
    if n > max_len {
        let keep = if max_len >= 3 {
            max_len - 3
        } else {
            0
        };
        let mut s = hostname.substring_char(0, keep).to_owned();
        s.append("...");
        s
    } else {
        hostname.to_owned()
    }
}

/// Constrain a width: four columns of margin come off, then the result
/// is clamped between the given minimum and maximum.
pub fn constrain_width(width: u16, min_width: u16, max_width: u16) -> (r: u16)
    ensures
        r == {
            let base = if width >= 4 {
                width - 4
            } else {
                0int
            };
            let floored = if base >= min_width {
                base
            } else {
                min_width as int
            };
            if floored <= max_width {
                floored
            } else {
                max_width as int
            }
        },
{
    let base = if width >= 4 {
        width - 4
    } else {
        0
    };
    let floored = if base >= min_width {
        base
    } else {
        min_width
    };
    if floored <= max_width {
        floored
    } else {
        max_width
    }
}

/// Fit a popup's preferred size into the available area, leaving four
/// cells of margin each way.
pub fn calculate_popup_dimensions(
    area_width: u16,
    area_height: u16,
    preferred_width: u16,
    preferred_height: u16,
) -> (r: (u16, u16))
    ensures
        r.0 == min_spec(
            preferred_width as int,
            if area_width >= 4 {
                area_width - 4
            } else {
                0int
            },
        ),
        r.1 == min_spec(
            preferred_height as int,
            if area_height >= 4 {
                area_height - 4
            } else {
                0int
            },
        ),
{
    let avail_w = if area_width >= 4 {
        area_width - 4
    } else {
        0
    };
    let avail_h = if area_height >= 4 {
        area_height - 4
    } else {
        0
    };
    let w = if preferred_width <= avail_w {
        preferred_width
    } else {
        avail_w
    };
    let h = if preferred_height <= avail_h {
        preferred_height
    } else {
        avail_h
    };
    (w, h)
}

/// The top-left corner that centres a popup in an area.
pub fn center_popup(area_width: u16, area_height: u16, popup_width: u16, popup_height: u16) -> (r:
    (u16, u16))
    ensures
        r.0 == (if area_width >= popup_width {
            (area_width - popup_width) as int
        } else {
            0int
        }) / 2,
        r.1 == (if area_height >= popup_height {
            (area_height - popup_height) as int
        } else {
            0int
        }) / 2,
{
    let dx = if area_width >= popup_width {
        area_width - popup_width
    } else {
        0
    };
    let dy = if area_height >= popup_height {
        area_height - popup_height
    } else {
        0
    };
    (dx / 2, dy / 2)
}

/// A run of `n` spaces.
pub open spec fn spaces(n: int) -> Seq<char>
    decreases n,
{
    if n <= 0 {
        Seq::empty()
    } else {
        spaces(n - 1).push(' ')
    }
}

/// A string right-aligned in a field of `width` characters.
pub open spec fn pad_left_spec(s: Seq<char>, width: int) -> Seq<char> {
    if s.len() >= width {
        s
    } else {
        spaces(width - s.len()) + s
    }
}

/// A string left-aligned in a field of `width` characters.
pub open spec fn pad_right_spec(s: Seq<char>, width: int) -> Seq<char> {
    if s.len() >= width {
        s
    } else {
        s + spaces(width - s.len())
    }
}

/// A run of `n` spaces, as text.
fn make_spaces(n: usize) -> (r: String)
    ensures
        r@ == spaces(n as int),
{
    let mut s = String::new();
    let mut i: usize = 0;
    while i < n
        invariant
            0 <= i <= n,
            s@ == spaces(i as int),
        decreases n - i,
    {
        s.append(" ");
        proof {
            reveal_strlit(" ");
            assert(s@ =~= spaces(i + 1));
        }
        i = i + 1;
    }
    s
}

/// Right-align a string in a field of `width` characters.
pub fn pad_left_str(s: &str, width: usize) -> (r: String)
    ensures
        r@ == pad_left_spec(s@, width as int),
{
    let n = s.unicode_len();
    if n >= width {
        s.to_owned()
    } else {
        let mut out = make_spaces(width - n);
        out.append(s);
        out
    }
}

/// Left-align a string in a field of `width` characters.
pub fn pad_right_str(s: &str, width: usize) -> (r: String)
    ensures
        r@ == pad_right_spec(s@, width as int),
{
    let n = s.unicode_len();
    if n >= width {
        s.to_owned()
    } else {
        let mut out = s.to_owned();
        out.append(make_spaces(width - n).as_str());
        out
    }
}

/// Format a count right-aligned in a field of `width` characters.
pub fn format_count_padded(value: usize, width: usize) -> (r: String)
    ensures
        r@ == {
            let digits = dec_digits(value as int);
            if digits.len() >= width {
                digits
            } else {
                spaces(width - digits.len()) + digits
            }
        },
{
    let digits = u64_to_dec_string(value as u64);
    let len = digits.as_str().unicode_len();
    if len >= width {
        digits
    } else {
        let mut s = String::new();
        let pad = width - len;
        let mut i: usize = 0;
        while i < pad
            invariant
                0 <= i <= pad,
                s@ == spaces(i as int),
            decreases pad - i,
        {
            s.append(" ");
            proof {
                reveal_strlit(" ");
                assert(s@ =~= spaces(i + 1));
            }
            i = i + 1;
        }
        s.append(digits.as_str());
        s
    }
}

} // verus!
