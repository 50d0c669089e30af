use mtr_ng::utils::{
    calculate_precise_elapsed, calculate_timing_jitter, calculate_timing_moving_average,
    calculate_popup_dimensions, center_popup, constrain_width, duration_to_ms_u64,
    duration_to_ns_u128, duration_to_us_u64, format_count_padded, format_duration_ms,
    format_duration_us, format_optional_duration_ms, format_optional_duration_us,
    get_monotonic_timestamp, get_system_timestamp_ns, max_with_minimum, min_with_safety,
    truncate_hostname, u64_to_dec_string,
};

const MS: u64 = 1_000_000;

#[test]
fn test_time_utils() {
    let duration = 1500 * MS;
    assert_eq!(duration_to_ms_u64(duration), 1500);
    assert_eq!(format_duration_ms(duration), "1500.0");
}

#[test]
fn test_layout_utils() {
    assert_eq!(constrain_width(100, 20, 60), 60);
    assert_eq!(constrain_width(10, 20, 60), 20);

    let (width, height) = calculate_popup_dimensions(100, 50, 80, 40);
    assert_eq!(width, 80);
    assert_eq!(height, 40);
}

#[test]
fn test_center_popup() {
    assert_eq!(center_popup(100, 50, 80, 40), (10, 5));
    // a popup larger than the area sits at the origin
    assert_eq!(center_popup(10, 10, 20, 20), (0, 0));
}

#[test]
fn test_network_utils() {
    let long_hostname = "very-long-hostname-that-should-be-truncated";
    assert_eq!(truncate_hostname(long_hostname, 20), "very-long-hostnam...");
    assert_eq!(truncate_hostname("short", 20), "short");
    assert_eq!(truncate_hostname("abcdef", 2), "...");
}

#[test]
fn test_additional_math_utils() {
    assert_eq!(min_with_safety(5, 10), 5);
    assert_eq!(min_with_safety(15, 10), 10);
    assert_eq!(max_with_minimum(5, 10), 10);
    assert_eq!(max_with_minimum(15, 10), 15);
}

#[test]
fn test_high_precision_time_utils() {
    let duration = 1500 * 1000;
    assert_eq!(duration_to_us_u64(duration), 1500);

    let duration_ns = 1_234_567;
    assert_eq!(duration_to_ns_u128(duration_ns), 1_234_567);

    let small_duration = 500 * 1000;
    assert_eq!(format_duration_us(small_duration), "500.0\u{3bc}s");

    let large_duration = 1500 * MS;
    assert_eq!(format_duration_us(large_duration), "1500.0ms");
}

#[test]
fn test_timing_jitter_calculation() {
    let current = 120 * MS;
    let previous = 100 * MS;
    let jitter = calculate_timing_jitter(current, previous);
    assert_eq!(jitter, 20 * MS);

    let jitter_reverse = calculate_timing_jitter(previous, current);
    assert_eq!(jitter_reverse, 20 * MS);
}

#[test]
fn test_timing_moving_average() {
    let values = vec![100 * MS, 110 * MS, 120 * MS, 130 * MS];

    let avg = calculate_timing_moving_average(&values, 3);
    assert!(avg.is_some());
    // mean of the last three values
    assert_eq!(avg.unwrap(), 120 * MS);

    assert!(calculate_timing_moving_average(&[], 3).is_none());
    assert!(calculate_timing_moving_average(&values, 0).is_none());
    // a window larger than the input averages everything
    assert_eq!(calculate_timing_moving_average(&values, 10), Some(115 * MS));
}

#[test]
fn test_timing_precision_improvements() {
    let ultra_fast = 100 * 1000;
    assert_eq!(format_duration_us(ultra_fast), "100.0\u{3bc}s");

    let sub_ms = 750 * 1000;
    assert_eq!(format_duration_us(sub_ms), "750.0\u{3bc}s");

    let ms_range = 5 * MS;
    assert_eq!(format_duration_us(ms_range), "5.0ms");

    let precise_timing = 123_456;
    assert_eq!(duration_to_ns_u128(precise_timing), 123_456);
}

#[test]
fn test_optional_duration_formatting() {
    assert_eq!(format_optional_duration_ms(Some(1500 * MS)), "1500.0");
    assert_eq!(format_optional_duration_ms(None), "???");
    assert_eq!(format_optional_duration_us(Some(500 * 1000)), "500.0\u{3bc}s");
    assert_eq!(format_optional_duration_us(None), "???");
}

#[test]
fn test_precise_elapsed() {
    assert_eq!(calculate_precise_elapsed(1_000, 3_500), 2_500);
    // a clock running backwards clamps at zero instead of wrapping
    assert_eq!(calculate_precise_elapsed(3_500, 1_000), 0);
}

#[test]
fn test_decimal_formatting() {
    assert_eq!(u64_to_dec_string(0), "0");
    assert_eq!(u64_to_dec_string(7), "7");
    assert_eq!(u64_to_dec_string(12345), "12345");
    assert_eq!(format_count_padded(42, 5), "   42");
    assert_eq!(format_count_padded(123456, 3), "123456");
}

#[test]
fn test_rounding_to_tenths() {
    // 123.456 ms rounds to 123.5
    assert_eq!(format_duration_ms(123_456_000), "123.5");
    // 123.44 ms rounds down to 123.4
    assert_eq!(format_duration_ms(123_440_000), "123.4");
}

#[test]
fn test_system_timestamp() {
    let t = get_system_timestamp_ns();
    assert!(t > 0);
}

#[test]
fn test_monotonic_timestamp() {
    let a = get_monotonic_timestamp();
    let b = get_monotonic_timestamp();
    assert!(b.duration_since(a).as_nanos() < 10_000_000_000);
}
