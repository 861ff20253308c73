use gpumem::checked_log;
use gpumem::format_bytes;
use gpumem::log;

#[test]
fn zero_renders_bare() {
    assert_eq!(format_bytes(0), "0");
}

#[test]
fn one_kib() {
    assert_eq!(format_bytes(1024), "1.00 KiB");
}

#[test]
fn one_and_a_half_kib() {
    assert_eq!(format_bytes(1536), "1.50 KiB");
}

#[test]
fn one_mib() {
    assert_eq!(format_bytes(1048576), "1.00 MiB");
}

#[test]
fn one_gib() {
    assert_eq!(format_bytes(1_073_741_824), "1.00 GiB");
}

#[test]
fn beyond_gib_clamps_to_gib() {
    assert_eq!(format_bytes(1u64 << 40), "1024.00 GiB");
}

#[test]
fn sub_kib_has_empty_suffix_with_trailing_space() {
    assert_eq!(format_bytes(500), "500.00 ");
    assert_eq!(format_bytes(1), "1.00 ");
    assert_eq!(format_bytes(1023), "1023.00 ");
}

#[test]
fn fractional_rounding() {
    // 1075 / 1024 = 1.0498...
    assert_eq!(format_bytes(1075), "1.05 KiB");
    // 1048575 / 1024 = 1023.999...
    assert_eq!(format_bytes(1048575), "1024.00 KiB");
}

#[test]
fn ties_round_to_even() {
    // 1152 / 1024 = 1.125 exactly: 1.12 is the even neighbor.
    assert_eq!(format_bytes(1152), "1.12 KiB");
    // 1408 / 1024 = 1.375 exactly: 1.38 is the even neighbor.
    assert_eq!(format_bytes(1408), "1.38 KiB");
}

#[test]
fn checked_log_rejects_degenerate_inputs() {
    assert_eq!(checked_log(0, 1024), None);
    assert_eq!(checked_log(5, 1), None);
    assert_eq!(checked_log(5, 0), None);
    assert_eq!(checked_log(0, 0), None);
}

#[test]
fn checked_log_values() {
    assert_eq!(checked_log(1, 1024), Some(0));
    assert_eq!(checked_log(1023, 1024), Some(0));
    assert_eq!(checked_log(1024, 1024), Some(1));
    assert_eq!(checked_log(1048575, 1024), Some(1));
    assert_eq!(checked_log(1048576, 1024), Some(2));
    assert_eq!(checked_log(u64::MAX, 2), Some(63));
}

#[test]
fn log_collapses_degenerate_inputs_to_zero() {
    assert_eq!(log(0, 1024), 0);
    assert_eq!(log(5, 1), 0);
    assert_eq!(log(1024, 1024), 1);
}
