use ufbx::utils::decimal::{parse_double_bits, FloatBits};
use ufbx::utils::float_parse::BigInt;

fn to_double(text: &[u8]) -> Option<(f64, usize)> {
    match parse_double_bits(text, false)? {
        (FloatBits::Double(bits), n) => Some((f64::from_bits(bits), n)),
        (FloatBits::Single(bits), n) => Some((f32::from_bits(bits) as f64, n)),
    }
}

fn to_single(text: &[u8]) -> Option<(f32, usize)> {
    match parse_double_bits(text, true)? {
        (FloatBits::Double(bits), n) => Some((f64::from_bits(bits) as f32, n)),
        (FloatBits::Single(bits), n) => Some((f32::from_bits(bits), n)),
    }
}

#[test]
fn test_parse_simple() {
    let (val, len) = to_double(b"123").unwrap();
    assert_eq!(val, 123.0);
    assert_eq!(len, 3);
}

#[test]
fn test_parse_decimal() {
    let (val, len) = to_double(b"3.14159").unwrap();
    assert_eq!(len, 7);
    assert!((val - 3.14159).abs() < 1e-10);
}

#[test]
fn test_parse_scientific() {
    let (val, _) = to_double(b"1.23e-4").unwrap();
    assert!((val - 0.000123).abs() < 1e-10);

    let (val, _) = to_double(b"5e10").unwrap();
    assert_eq!(val, 5e10);
}

#[test]
fn test_parse_negative() {
    let (val, _) = to_double(b"-42.5").unwrap();
    assert_eq!(val, -42.5);
}

#[test]
fn test_parse_infinity() {
    let (val, _) = to_double(b"inf").unwrap();
    assert!(val.is_infinite() && val.is_sign_positive());

    let (val, _) = to_double(b"-infinity").unwrap();
    assert!(val.is_infinite() && val.is_sign_negative());

    let (val, _) = to_double(b"1.#INF").unwrap();
    assert!(val.is_infinite());
}

#[test]
fn test_parse_nan() {
    let (val, _) = to_double(b"nan").unwrap();
    assert!(val.is_nan());

    let (val, _) = to_double(b"NaN(123)").unwrap();
    assert!(val.is_nan());

    let (val, _) = to_double(b"1.#NAN").unwrap();
    assert!(val.is_nan());
}

#[test]
fn test_parse_zero() {
    let (val, _) = to_double(b"0").unwrap();
    assert_eq!(val, 0.0);

    let (val, _) = to_double(b"-0.0").unwrap();
    assert_eq!(val, -0.0);
    assert!(val.is_sign_negative());
}

#[test]
fn test_parse_denormal() {
    let (val, _) = to_double(b"2.2250738585072014e-308").unwrap();
    assert!(val > 0.0);
    assert!(val < 1e-307);
}

#[test]
fn test_parse_max_float() {
    let (val, _) = to_double(b"1.7976931348623157e308").unwrap();
    assert!(val.is_finite());
    assert!(val > 1e307);
}

#[test]
fn doubles_are_correctly_rounded() {
    let cases: [&str; 22] = [
        "0.1",
        "0.2",
        "0.3",
        "1.7976931348623157e308",
        "2.2250738585072014e-308",
        "2.2250738585072011e-308",
        "4.9406564584124654e-324",
        "2.4703282292062328e-324",
        "9007199254740993",
        "9007199254740995",
        "123456789012345678901234567890",
        "0.000000000000000000000000000123456789",
        "3.141592653589793238462643383279502884197",
        "1e22",
        "1e23",
        "8.98846567431158e307",
        "1.00000000000000011102230246251565404236316680908203125",
        "1.00000000000000011102230246251565404236316680908203124",
        "1.00000000000000011102230246251565404236316680908203126",
        "6.02214076e23",
        "1.602176634e-19",
        "7e-10",
    ];
    for text in cases.iter() {
        let (val, len) = to_double(text.as_bytes()).unwrap();
        assert_eq!(len, text.len(), "{}", text);
        let expected: f64 = text.parse().unwrap();
        assert_eq!(val.to_bits(), expected.to_bits(), "{}", text);
    }
}

#[test]
fn singles_are_correctly_rounded() {
    let cases: [&str; 10] = [
        "3.14",
        "0.1",
        "16777217",
        "16777219",
        "3.4028234e38",
        "1.4e-45",
        "7.0e-46",
        "1.17549435e-38",
        "1e-10",
        "123456.789",
    ];
    for text in cases.iter() {
        let (val, len) = to_single(text.as_bytes()).unwrap();
        assert_eq!(len, text.len(), "{}", text);
        let expected: f32 = text.parse().unwrap();
        assert_eq!(val.to_bits(), expected.to_bits(), "{}", text);
    }
}

#[test]
fn out_of_range_values() {
    assert_eq!(to_double(b"1e309").unwrap().0, f64::INFINITY);
    assert_eq!(to_double(b"-1e400").unwrap().0, f64::NEG_INFINITY);
    assert_eq!(to_double(b"1e-400").unwrap().0.to_bits(), 0);
    assert_eq!(to_double(b"2.4703282292062327e-324").unwrap().0.to_bits(), 0);
    assert_eq!(to_single(b"1e39").unwrap().0, f32::INFINITY);
    assert_eq!(to_single(b"1e-50").unwrap().0.to_bits(), 0);
    assert_eq!(
        parse_double_bits(b"-1e-400", false).unwrap().0,
        FloatBits::Double(0x8000_0000_0000_0000)
    );
}

#[test]
fn extent_and_refusals() {
    assert_eq!(to_double(b"1.5e3xyz").unwrap(), (1500.0, 5));
    assert_eq!(to_double(b"12.5.3").unwrap(), (12.5, 4));
    assert!(to_double(b"").is_none());
    assert!(to_double(b"-").is_none());
    assert!(to_double(b"1e").is_none());
    assert_eq!(to_double(b"e5").unwrap(), (0.0, 2));
    assert_eq!(to_double(b".5").unwrap(), (0.5, 2));
}

#[test]
fn long_division_and_top_bits() {
    // (2^64 + 7) / 3
    let mut a = BigInt::new(8);
    a.limbs[0] = 7;
    a.limbs[1] = 0;
    a.limbs[2] = 1;
    a.length = 3;
    let mut d = BigInt::new(8);
    d.limbs[0] = 3;
    d.length = 1;
    let mut q = BigInt::new(8);
    let rest = a.div(&d, &mut q);
    let expected: u128 = ((1u128 << 64) + 7) / 3;
    assert!(rest);
    assert_eq!(q.length, 2);
    assert_eq!(q.limbs[0] as u128 + ((q.limbs[1] as u128) << 32), expected);

    let mut exponent = 0;
    let mut tail = false;
    let top = a.extract_high(&mut exponent, &mut tail);
    assert_eq!(exponent, 64);
    assert_eq!(top, 0x8000_0000_0000_0003);
    assert!(tail);
}
