use gguf_inspector::byte_size::{
    div_round_half_even, format_bytes, hundredths_of, nearest_double_of, spacing_of, GIB, KIB, MIB,
};

/// The same text by way of double precision.
fn by_floats(bytes: u64) -> String {
    if bytes >= GIB {
        format!("{:.2} GiB", bytes as f64 / GIB as f64)
    } else if bytes >= MIB {
        format!("{:.2} MiB", bytes as f64 / MIB as f64)
    } else if bytes >= KIB {
        format!("{:.2} KiB", bytes as f64 / KIB as f64)
    } else {
        format!("{} B", bytes)
    }
}

#[test]
fn small_counts_are_written_in_bytes() {
    assert_eq!(format_bytes(0), "0 B");
    assert_eq!(format_bytes(1), "1 B");
    assert_eq!(format_bytes(96), "96 B");
    assert_eq!(format_bytes(1023), "1023 B");
}

#[test]
fn units_start_at_their_powers_of_two() {
    assert_eq!(format_bytes(1024), "1.00 KiB");
    assert_eq!(format_bytes(1024 * 1024 - 1), "1024.00 KiB");
    assert_eq!(format_bytes(1024 * 1024), "1.00 MiB");
    assert_eq!(format_bytes(1024 * 1024 * 1024 - 1), "1024.00 MiB");
    assert_eq!(format_bytes(1024 * 1024 * 1024), "1.00 GiB");
}

#[test]
fn two_decimals_are_exact_where_they_can_be() {
    assert_eq!(format_bytes(1536), "1.50 KiB");
    assert_eq!(format_bytes(1280), "1.25 KiB");
    assert_eq!(format_bytes(10 * 1024 + 512), "10.50 KiB");
    assert_eq!(format_bytes(5 * MIB / 4), "1.25 MiB");
    assert_eq!(format_bytes(7 * GIB), "7.00 GiB");
    assert_eq!(format_bytes(13 * GIB + GIB / 2), "13.50 GiB");
}

#[test]
fn decimals_keep_their_leading_zero() {
    // 1034 / 1024 = 1.0097...
    assert_eq!(format_bytes(1034), "1.01 KiB");
    // 1075 / 1024 = 1.0498...
    assert_eq!(format_bytes(1075), "1.05 KiB");
    assert_eq!(format_bytes(GIB + GIB / 100), "1.01 GiB");
}

#[test]
fn ties_go_to_the_even_digit() {
    // 1152 / 1024 = 1.125 exactly
    assert_eq!(format_bytes(1152), "1.12 KiB");
    // 1408 / 1024 = 1.375 exactly
    assert_eq!(format_bytes(1408), "1.38 KiB");
    // 1.625, 1.875
    assert_eq!(format_bytes(1664), "1.62 KiB");
    assert_eq!(format_bytes(1920), "1.88 KiB");
    assert_eq!(format_bytes(1152 * KIB), "1.12 MiB");
    assert_eq!(format_bytes(1408 * MIB), "1.38 GiB");
}

#[test]
fn rounding_may_carry_into_the_whole_part() {
    // 2047 / 1024 = 1.99902...
    assert_eq!(format_bytes(2047), "2.00 KiB");
    assert_eq!(format_bytes(10 * MIB - 1), "10.00 MiB");
    assert_eq!(format_bytes(100 * GIB - 1), "100.00 GiB");
}

#[test]
fn largest_counts_are_written_in_gib() {
    assert_eq!(format_bytes(u64::MAX), "17179869184.00 GiB");
    assert_eq!(format_bytes(1 << 63), "8589934592.00 GiB");
    assert_eq!(format_bytes(1 << 40), "1024.00 GiB");
}

#[test]
fn text_agrees_with_double_precision_on_a_sweep() {
    let mut bytes: u64 = 0;
    let mut step: u64 = 1;
    while bytes < 1 << 36 {
        assert_eq!(format_bytes(bytes), by_floats(bytes), "bytes {}", bytes);
        bytes += step;
        if bytes > 4096 {
            step = step * 33 / 32 + 1;
        }
    }
}

#[test]
fn text_agrees_with_double_precision_on_every_tie() {
    // Every count whose hundredths end in exactly one half: multiples of
    // unit / 200 scaled to whole bytes, that is odd multiples of unit / 8 / 25.
    for unit in [KIB, MIB, GIB] {
        let half_step = unit / 8;
        for k in 8..2000u64 {
            let bytes = k * half_step;
            assert_eq!(format_bytes(bytes), by_floats(bytes), "bytes {}", bytes);
        }
        for k in 800..3000u64 {
            let bytes = k * (unit / 128);
            assert_eq!(format_bytes(bytes), by_floats(bytes), "bytes {}", bytes);
        }
    }
}

#[test]
fn text_agrees_with_double_precision_around_powers_of_two() {
    for shift in 10..64u32 {
        let base = 1u64 << shift;
        for delta in 0..300u64 {
            for bytes in [base - delta, base + delta, base + (base >> 1) + delta] {
                assert_eq!(format_bytes(bytes), by_floats(bytes), "bytes {}", bytes);
            }
        }
    }
    for delta in 0..5000u64 {
        let bytes = u64::MAX - delta;
        assert_eq!(format_bytes(bytes), by_floats(bytes), "bytes {}", bytes);
    }
}

#[test]
fn text_agrees_with_double_precision_on_scattered_counts() {
    // a fixed linear congruential walk over the whole range
    let mut x: u64 = 0x9e37_79b9_7f4a_7c15;
    for _ in 0..20_000 {
        x = x.wrapping_mul(6364136223846793005).wrapping_add(1442695040888963407);
        for shift in [0u32, 8, 16, 24, 30, 34, 44, 52] {
            let bytes = x >> shift;
            assert_eq!(format_bytes(bytes), by_floats(bytes), "bytes {}", bytes);
        }
    }
}

#[test]
fn nearest_double_is_the_conversion_to_f64() {
    for n in [
        0u64,
        1,
        (1 << 53) - 1,
        1 << 53,
        (1 << 53) + 1,
        (1 << 53) + 2,
        (1 << 53) + 3,
        (1 << 54) + 2,
        (1 << 54) + 6,
        (1 << 60) + 64,
        (1 << 60) + 65,
        (1 << 63) + 1024,
        (1 << 63) + 3072,
        u64::MAX - 1024,
        u64::MAX - 1023,
        u64::MAX,
    ] {
        assert_eq!(nearest_double_of(n), (n as f64) as u128, "n {}", n);
    }
    let mut x: u64 = 12345;
    for _ in 0..20_000 {
        x = x.wrapping_mul(6364136223846793005).wrapping_add(1442695040888963407);
        assert_eq!(nearest_double_of(x), (x as f64) as u128, "n {}", x);
    }
}

#[test]
fn spacing_doubles_with_each_power_of_two() {
    assert_eq!(spacing_of(0), 1);
    assert_eq!(spacing_of((1 << 53) - 1), 1);
    assert_eq!(spacing_of(1 << 53), 2);
    assert_eq!(spacing_of((1 << 54) - 1), 2);
    assert_eq!(spacing_of(1 << 54), 4);
    assert_eq!(spacing_of((1 << 62) - 1), 512);
    assert_eq!(spacing_of(1 << 62), 1024);
    assert_eq!(spacing_of((1 << 63) - 1), 1024);
    assert_eq!(spacing_of(1 << 63), 2048);
    assert_eq!(spacing_of(u64::MAX), 2048);
}

#[test]
fn division_rounds_half_to_even() {
    assert_eq!(div_round_half_even(0, 4), 0);
    assert_eq!(div_round_half_even(1, 4), 0);
    assert_eq!(div_round_half_even(2, 4), 0);
    assert_eq!(div_round_half_even(3, 4), 1);
    assert_eq!(div_round_half_even(6, 4), 2);
    assert_eq!(div_round_half_even(10, 4), 2);
    assert_eq!(div_round_half_even(14, 4), 4);
    assert_eq!(div_round_half_even(7, 3), 2);
    assert_eq!(div_round_half_even(8, 3), 3);
    assert_eq!(div_round_half_even(5, 1), 5);
}

#[test]
fn hundredths_are_counted_in_the_unit() {
    assert_eq!(hundredths_of(1536, KIB), 150);
    assert_eq!(hundredths_of(1152, KIB), 112);
    assert_eq!(hundredths_of(1408, KIB), 138);
    assert_eq!(hundredths_of(3 * GIB, GIB), 300);
    assert_eq!(hundredths_of(u64::MAX, GIB), 1_717_986_918_400);
}
