use rfshare::numbers::{
    decimal_of, digit_char, nearest_single, push_decimal, push_hex_lower, push_hex_upper,
    push_padded, read_number, size_string,
};
use rfshare::text::chars_of;

#[test]
fn decimal_digits() {
    assert_eq!(decimal_of(0), "0");
    assert_eq!(decimal_of(1234567890), "1234567890");
    assert_eq!(decimal_of(u64::MAX), u64::MAX.to_string());
    assert_eq!(digit_char(7), '7');
    let mut s = "n=".to_string();
    push_decimal(&mut s, 42);
    assert_eq!(s, "n=42");
}

#[test]
fn padded_digits() {
    for (n, width) in [(5u64, 2usize), (0, 4), (1970, 4), (12345, 4)] {
        let mut s = String::new();
        push_padded(&mut s, n, width);
        assert_eq!(s, format!("{:01$}", n, width));
    }
}

#[test]
fn hexadecimal_bytes() {
    for b in 0..=255u8 {
        let mut up = String::new();
        push_hex_upper(&mut up, b);
        assert_eq!(up, format!("{:02X}", b));
        let mut low = String::new();
        push_hex_lower(&mut low, b);
        assert_eq!(low, format!("{:02x}", b));
    }
}

#[test]
fn numbers_are_read_as_std_reads_them() {
    for s in ["", "0", "007", "+5", "-1", "+", "1a", " 1", "255", "256", "4294967295", "4294967296",
        "18446744073709551615", "18446744073709551616"]
    {
        assert_eq!(read_number(&chars_of(s), u64::MAX), s.parse::<u64>().ok(), "{:?}", s);
        assert_eq!(
            read_number(&chars_of(s), u32::MAX as u64),
            s.parse::<u32>().ok().map(|n| n as u64),
            "{:?}",
            s
        );
    }
}

#[test]
fn written_numbers_are_read_again() {
    for n in [0u64, 1, 9, 10, 99, 1 << 40, u64::MAX] {
        assert_eq!(read_number(&chars_of(&decimal_of(n)), u64::MAX), Some(n));
    }
}

#[test]
fn nearest_singles() {
    let mut n: u64 = 1;
    for i in 0..60u64 {
        for m in [n, n + 1, n + i, n.wrapping_mul(3), u64::MAX - n] {
            assert_eq!(nearest_single(m), (m as f32) as u128);
        }
        n = n.wrapping_mul(2).wrapping_add(i % 3);
    }
    assert_eq!(nearest_single(0), 0);
    assert_eq!(nearest_single(16_777_217), 16_777_216);
    assert_eq!(nearest_single(16_777_219), 16_777_220);
}

fn float_size(b: u64) -> String {
    let units = ["B", "KB", "MB", "GB", "TB"];
    let mut s = b as f64;
    let mut i = 0;
    while s >= 1024.0 && i < units.len() - 1 {
        s /= 1024.0;
        i += 1;
    }
    if i == 0 {
        format!("{} B", b)
    } else {
        format!("{:.1} {}", s, units[i])
    }
}

#[test]
fn sizes_for_display() {
    assert_eq!(size_string(0), "0 B");
    assert_eq!(size_string(1023), "1023 B");
    assert_eq!(size_string(1024), "1.0 KB");
    assert_eq!(size_string(1536), "1.5 KB");
    assert_eq!(size_string(5 * 1024 * 1024), "5.0 MB");
    assert_eq!(size_string(8 * 1024 * 1024 * 1024), "8.0 GB");
}

#[test]
fn sizes_are_those_of_floating_point() {
    let mut x: u64 = 0x9e37_79b9_7f4a_7c15;
    for i in 0..20_000u64 {
        x ^= x << 13;
        x ^= x >> 7;
        x ^= x << 17;
        let b = x >> (i % 64);
        assert_eq!(size_string(b), float_size(b), "{}", b);
    }
    for e in 10..64u32 {
        for d in 0..4u64 {
            let p = 1u64 << e;
            assert_eq!(size_string(p + d), float_size(p + d));
            assert_eq!(size_string(p - d), float_size(p - d));
            assert_eq!(size_string(p + p / 20 * d), float_size(p + p / 20 * d));
        }
    }
    assert_eq!(size_string(u64::MAX), float_size(u64::MAX));
}
