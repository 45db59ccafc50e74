use ufbx::utils::float_parse::{parse_i64, parse_u32_radix, BigInt};

#[test]
fn test_parse_i64() {
    let (val, len) = parse_i64(b"-12345").unwrap();
    assert_eq!(val, -12345);
    assert_eq!(len, 6);

    let (val, _) = parse_i64(b"+999").unwrap();
    assert_eq!(val, 999);

    assert!(parse_i64(b"").is_none());
    assert!(parse_i64(b"-").is_none());
}

#[test]
fn test_parse_u32_radix() {
    assert_eq!(parse_u32_radix(b"12345", 10), 12345);
    assert_eq!(parse_u32_radix(b"ff", 16), 255);
    assert_eq!(parse_u32_radix(b"DEADBEEF", 16), 0xdeadbeef);
}

#[test]
fn test_bigint_mad() {
    let mut bi = BigInt::new(10);
    bi.limbs[0] = 5;
    bi.length = 1;
    bi.mad(10, 3);
    assert_eq!(bi.limbs[0], 53);
    assert_eq!(bi.length, 1);
}

#[test]
fn test_bigint_shift() {
    let mut bi = BigInt::new(10);
    bi.limbs[0] = 1;
    bi.length = 1;
    bi.shift_left(32);
    assert_eq!(bi.limbs[0], 0);
    assert_eq!(bi.limbs[1], 1);
    assert_eq!(bi.length, 2);
}

use ufbx::utils::float_parse::{parse_inf_nan, scan_number, shift_right_round, NumberScan};

#[test]
fn bigint_mul_pow5_and_top_limb() {
    let mut bi = BigInt::new(10);
    bi.limbs[0] = 3;
    bi.length = 1;
    bi.mul_pow5(30);
    assert_eq!(bi.length, 3);
    let value = (bi.limbs[2] as u128) << 64 | (bi.limbs[1] as u128) << 32 | bi.limbs[0] as u128;
    assert_eq!(value, 3u128 * 5u128.pow(30));
    assert_eq!(bi.top_limb(0), bi.limbs[2]);
    assert_eq!(bi.top_limb(2), bi.limbs[0]);
    assert_eq!(bi.top_limb(3), 0);
}

#[test]
fn rounding_shift_ties_to_even() {
    assert_eq!(shift_right_round(0b1011, 0, false), 0b1011);
    assert_eq!(shift_right_round(0b1010, 2, false), 0b10);
    assert_eq!(shift_right_round(0b1110, 2, false), 0b100);
    assert_eq!(shift_right_round(0b1010, 2, true), 0b11);
    assert_eq!(shift_right_round(0b1011, 2, false), 0b11);
    assert_eq!(shift_right_round(u64::MAX, 64, false), 1);
    assert_eq!(shift_right_round(1 << 63, 64, false), 0);
    assert_eq!(shift_right_round(u64::MAX, 65, true), 0);
}

#[test]
fn number_scanning() {
    match scan_number(b"-12.5e3xyz").unwrap() {
        NumberScan::Finite { negative, start, end, any_digit } => {
            assert!(negative);
            assert_eq!((start, end), (1, 7));
            assert!(any_digit);
        }
        _ => panic!("Expected a finite number"),
    }
    match scan_number(b"e5").unwrap() {
        NumberScan::Finite { end, any_digit, .. } => {
            assert_eq!(end, 2);
            assert!(!any_digit);
        }
        _ => panic!("Expected a finite number"),
    }
    assert!(scan_number(b"").is_none());
    assert!(scan_number(b"-").is_none());
    assert!(scan_number(b"1e").is_none());
    assert!(scan_number(b"1e+").is_none());
    assert!(scan_number(b"x").is_none());
    match scan_number(b"-inf").unwrap() {
        NumberScan::Special { top_bits, end } => assert_eq!((top_bits, end), (0xfff0, 4)),
        _ => panic!("Expected infinity"),
    }
    match scan_number(b"1e99999").unwrap() {
        NumberScan::Finite { end, .. } => assert_eq!(end, 7),
        _ => panic!("Expected a finite number"),
    }
}

#[test]
fn infinities_and_nans() {
    assert_eq!(parse_inf_nan(b"Infinity"), Some((0x7ff0, 8)));
    assert_eq!(parse_inf_nan(b"nan(abc1)x"), Some((0x7ff8, 9)));
    assert_eq!(parse_inf_nan(b"nan(ab"), None);
    assert_eq!(parse_inf_nan(b"-1.#IND00"), Some((0xfff8, 9)));
    assert_eq!(parse_inf_nan(b"1.#QNAN"), None);
    assert_eq!(parse_inf_nan(b"+nan"), Some((0x7ff8, 4)));
}
