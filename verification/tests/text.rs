use rv::text::{format_decimal, format_hex, format_signed};

#[test]
fn decimal_matches_std() {
    for n in [0u32, 1, 9, 10, 11, 99, 100, 101, 4095, 65536, 1_000_000, 4294967288, u32::MAX] {
        assert_eq!(format_decimal(n), format!("{}", n));
    }
}

#[test]
fn decimal_exact_values() {
    assert_eq!(format_decimal(0), "0");
    assert_eq!(format_decimal(4096), "4096");
    assert_eq!(format_decimal(u32::MAX), "4294967295");
}

#[test]
fn signed_matches_std() {
    for x in [0i32, 1, -1, 9, -9, 10, -10, 2047, -2048, i32::MAX, i32::MIN, i32::MIN + 1] {
        assert_eq!(format_signed(x), format!("{}", x));
    }
}

#[test]
fn signed_exact_values() {
    assert_eq!(format_signed(-8), "-8");
    assert_eq!(format_signed(i32::MIN), "-2147483648");
    assert_eq!(format_signed(93), "93");
}

#[test]
fn hex_matches_std() {
    for n in [
        0u32, 1, 0xf, 0x10, 0xff, 0x100, 0xfffff, 0x100000, 0xffffff, 0x1000000, 0x11000,
        0xdeadbeef, u32::MAX,
    ] {
        assert_eq!(format_hex(n), format!("{:#08x}", n));
    }
}

#[test]
fn hex_exact_values() {
    assert_eq!(format_hex(0), "0x000000");
    assert_eq!(format_hex(0x11000), "0x011000");
    assert_eq!(format_hex(0xabcdef), "0xabcdef");
    assert_eq!(format_hex(0x1234567), "0x1234567");
    assert_eq!(format_hex(0xffffffff), "0xffffffff");
}
