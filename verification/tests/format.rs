use mission_centre_pg::pages::format::format_bytes;
use mission_centre_pg::text::write_signed;

/// The figure as the page computed it before: through a double, divided by
/// 1024 while it is at least 1024, printed with one decimal.
fn through_a_double(bytes: i64) -> String {
    const UNITS: [&str; 5] = ["B", "KiB", "MiB", "GiB", "TiB"];
    if bytes < 1024 {
        return format!("{bytes} B");
    }
    let mut value = bytes as f64;
    let mut unit = 0;
    while value >= 1024.0 && unit < UNITS.len() - 1 {
        value /= 1024.0;
        unit += 1;
    }
    format!("{value:.1} {}", UNITS[unit])
}

#[test]
fn formats_bytes_in_binary_units() {
    assert_eq!(format_bytes(0), "0 B");
    assert_eq!(format_bytes(512), "512 B");
    assert_eq!(format_bytes(1024), "1.0 KiB");
    assert_eq!(format_bytes(1_048_576), "1.0 MiB");
    assert_eq!(format_bytes(3_221_225_472), "3.0 GiB");
}

#[test]
fn negative_and_small_sizes_print_in_bytes() {
    assert_eq!(format_bytes(-5), "-5 B");
    assert_eq!(format_bytes(1023), "1023 B");
    assert_eq!(format_bytes(i64::MIN), format!("{} B", i64::MIN));
}

#[test]
fn tenths_round_to_the_nearest_and_half_way_to_the_even_digit() {
    assert_eq!(format_bytes(1075), "1.0 KiB");
    assert_eq!(format_bytes(1076), "1.1 KiB");
    assert_eq!(format_bytes(1536), "1.5 KiB");
    assert_eq!(format_bytes(1280), "1.2 KiB");
    assert_eq!(format_bytes(1792), "1.8 KiB");
    assert_eq!(format_bytes(1024 * 1024 - 1), "1024.0 KiB");
}

#[test]
fn the_largest_unit_is_tebibytes() {
    assert_eq!(format_bytes(1_099_511_627_776), "1.0 TiB");
    assert_eq!(format_bytes(i64::MAX), "8388608.0 TiB");
}

#[test]
fn sizes_print_exactly_as_through_a_double() {
    let mut samples: Vec<i64> = vec![
        1024,
        1075,
        1076,
        1127,
        2047,
        10_239,
        10_240,
        1_048_575,
        1_048_576,
        1_153_434,
        1_073_741_823,
        1_073_741_824,
        1_099_511_627_775,
        1_099_511_627_776,
        9_007_199_254_740_991,
        9_007_199_254_740_993,
        9_007_199_254_740_995,
        18_014_398_509_481_986,
        i64::MAX - 1,
        i64::MAX,
    ];
    let mut x: u64 = 0x9E37_79B9_7F4A_7C15;
    for _ in 0..20_000 {
        x ^= x << 13;
        x ^= x >> 7;
        x ^= x << 17;
        let shift = (x % 63) as u32;
        samples.push(((x >> 1) >> shift) as i64);
    }
    for k in 0..4096i64 {
        samples.push(1024 + k * 25);
        samples.push(1_048_576 + k * 52_429);
    }
    for bytes in samples {
        assert_eq!(format_bytes(bytes), through_a_double(bytes), "for {bytes}");
    }
}

#[test]
fn signed_numbers_print_as_display_does_at_both_ends() {
    for n in [i128::MIN, i128::MIN + 1, -1, 0, 7, i128::MAX] {
        let mut out = String::from("pid ");
        write_signed(n, &mut out);
        assert_eq!(out, format!("pid {n}"));
    }
}
