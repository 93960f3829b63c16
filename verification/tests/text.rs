use ws_s::text::{decimal_text, format_bytes, signed_text, GIB, KIB, MIB, TIB};

#[test]
fn decimal_numbers() {
    assert_eq!(decimal_text(0), "0");
    assert_eq!(decimal_text(7), "7");
    assert_eq!(decimal_text(10), "10");
    assert_eq!(decimal_text(1234567890), "1234567890");
    assert_eq!(decimal_text(u64::MAX), "18446744073709551615");
    for n in 0u64..2000 {
        assert_eq!(decimal_text(n), n.to_string());
    }
}

#[test]
fn room_numbers() {
    assert_eq!(signed_text(0), "0");
    assert_eq!(signed_text(42), "42");
    assert_eq!(signed_text(-1), "-1");
    assert_eq!(signed_text(i32::MAX), "2147483647");
    assert_eq!(signed_text(i32::MIN), "-2147483648");
}

#[test]
fn byte_counts_below_one_kib_are_whole_bytes() {
    assert_eq!(format_bytes(0), "0 B");
    assert_eq!(format_bytes(1), "1 B");
    assert_eq!(format_bytes(10), "10 B");
    assert_eq!(format_bytes(1023), "1023 B");
}

#[test]
fn byte_counts_take_the_largest_unit_that_fits() {
    assert_eq!(KIB, 1024);
    assert_eq!(MIB, 1024 * 1024);
    assert_eq!(GIB, 1024 * 1024 * 1024);
    assert_eq!(TIB, 1024u64 * 1024 * 1024 * 1024);
    assert_eq!(format_bytes(1024), "1.00 KiB");
    assert_eq!(format_bytes(1536), "1.50 KiB");
    assert_eq!(format_bytes(MIB - 1), "1024.00 KiB");
    assert_eq!(format_bytes(MIB), "1.00 MiB");
    assert_eq!(format_bytes(5 * MIB + MIB / 4), "5.25 MiB");
    assert_eq!(format_bytes(GIB), "1.00 GiB");
    assert_eq!(format_bytes(3 * GIB + GIB / 2), "3.50 GiB");
    assert_eq!(format_bytes(TIB), "1.00 TiB");
    assert_eq!(format_bytes(2048 * TIB), "2048.00 TiB");
    assert_eq!(format_bytes(u64::MAX), "16777216.00 TiB");
}

#[test]
fn byte_counts_round_to_the_nearest_hundredth() {
    assert_eq!(format_bytes(1034), "1.01 KiB");
    assert_eq!(format_bytes(1029), "1.00 KiB");
    assert_eq!(format_bytes(1030), "1.01 KiB");
    assert_eq!(format_bytes(2047), "2.00 KiB");
}

#[test]
fn a_tie_goes_to_the_even_hundredth() {
    assert_eq!(format_bytes(1152), "1.12 KiB");
    assert_eq!(format_bytes(1024 + 384), "1.38 KiB");
    assert_eq!(format_bytes(1024 * 1000 + 128), "1000.12 KiB");
}

#[test]
fn byte_counts_agree_with_floating_point_formatting() {
    for bytes in 1024u64..70_000 {
        assert_eq!(format_bytes(bytes), format!("{:.2} KiB", bytes as f64 / 1024.0));
    }
    let mut bytes = MIB;
    while bytes < GIB {
        assert_eq!(format_bytes(bytes), format!("{:.2} MiB", bytes as f64 / MIB as f64));
        bytes += 104_729;
    }
    let mut bytes = GIB;
    while bytes < TIB {
        assert_eq!(format_bytes(bytes), format!("{:.2} GiB", bytes as f64 / GIB as f64));
        bytes += 1_299_709 * 1024 + 1;
    }
    let mut bytes = TIB;
    while bytes < 4096 * TIB {
        assert_eq!(format_bytes(bytes), format!("{:.2} TiB", bytes as f64 / TIB as f64));
        bytes += 15_485_863 * 1024 * 1024 + 3;
    }
}
