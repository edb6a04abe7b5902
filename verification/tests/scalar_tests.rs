use substreams::decimal::{decode_i32, decode_i64, encode_i64};
use substreams::scalar::{BigDecimal, BigInt, BigIntOutOfRangeError, Sign};

#[test]
fn int64_text_round_trip() {
    for v in [0i64, 1, -1, 10, -10, 99, 100, 12345, i64::MAX, i64::MIN, i64::MAX - 1, i64::MIN + 1] {
        let text = encode_i64(v);
        assert_eq!(String::from_utf8(text.clone()).unwrap(), v.to_string());
        assert_eq!(decode_i64(&text), Some(v));
    }
}

#[test]
fn int64_text_exact_values() {
    assert_eq!(encode_i64(0), b"0".to_vec());
    assert_eq!(encode_i64(-9223372036854775808), b"-9223372036854775808".to_vec());
    assert_eq!(encode_i64(9223372036854775807), b"9223372036854775807".to_vec());
    assert_eq!(decode_i64(b"+007"), Some(7));
    assert_eq!(decode_i64(b"-0"), Some(0));
    assert_eq!(decode_i64(b"000000000000000000000000000012"), Some(12));
}

#[test]
fn int64_text_that_is_no_number() {
    for text in ["", "-", "+", " 1", "1 ", "1_000", "0x10", "1.0", "--1", "+-1", "9223372036854775808", "-9223372036854775809", "invalid", "１"] {
        assert_eq!(decode_i64(text.as_bytes()), None, "text {text}");
        assert_eq!(decode_i64(text.as_bytes()), text.parse::<i64>().ok(), "text {text}");
    }
    assert_eq!(decode_i64(&[0xff]), None);
}

#[test]
fn int32_text() {
    assert_eq!(decode_i32(b"2147483647"), Some(i32::MAX));
    assert_eq!(decode_i32(b"-2147483648"), Some(i32::MIN));
    assert_eq!(decode_i32(b"2147483648"), None);
    assert_eq!(decode_i32(b"-2147483649"), None);
    assert_eq!(decode_i32(b"0"), Some(0));
}

#[test]
fn bigint_text_round_trip() {
    for text in ["0", "1", "-1", "340282366920938463463374607431768211456", "-340282366920938463463374607431768211456"] {
        let n = BigInt::parse(text).unwrap();
        assert_eq!(n.to_store_bytes(), text.as_bytes().to_vec());
        let back = BigInt::from_store_bytes(&n.to_store_bytes());
        assert_eq!(back.to_store_bytes(), text.as_bytes().to_vec());
    }
    assert!(BigInt::from_store_bytes(b"").is_zero());
    assert!(BigInt::try_from_store_bytes(b"abc").is_none());
    assert!(BigInt::try_from_store_bytes(&[0xff]).is_none());
    assert!(BigInt::parse("").is_none());
}

#[test]
fn bigint_arithmetic() {
    let a = BigInt::from_i64(7);
    let b = BigInt::from_i64(-3);
    assert_eq!(a.add(&b).to_store_bytes(), b"4".to_vec());
    assert_eq!(a.sub(&b).to_store_bytes(), b"10".to_vec());
    assert_eq!(a.mul(&b).to_store_bytes(), b"-21".to_vec());
    assert_eq!(b.neg().to_store_bytes(), b"3".to_vec());
    assert_eq!(b.absolute().to_store_bytes(), b"3".to_vec());
    assert_eq!(a.absolute().to_store_bytes(), b"7".to_vec());
    assert!(b.lt(&a));
    assert!(!a.lt(&b));
    assert!(!a.lt(&a));
    assert!(BigInt::zero().is_zero());
    assert!(!BigInt::one().is_zero());
    assert!(BigInt::one().is_one());
    assert!(!a.is_one());
}

#[test]
fn bigint_to_u64() {
    assert_eq!(BigInt::from_u64(0).try_to_u64(), Ok(0));
    assert_eq!(BigInt::from_u64(255).try_to_u64(), Ok(255));
    assert_eq!(BigInt::from_u64(256).try_to_u64(), Ok(256));
    assert_eq!(BigInt::from_u64(0x0102030405060708).try_to_u64(), Ok(0x0102030405060708));
    assert_eq!(BigInt::from_u64(u64::MAX).try_to_u64(), Ok(u64::MAX));
    assert_eq!(BigInt::from_u64(u64::MAX).to_u64(), u64::MAX);
    assert_eq!(BigInt::from_i64(-1).try_to_u64(), Err(BigIntOutOfRangeError::Negative));
    let above = BigInt::from_u64(u64::MAX).add(&BigInt::one());
    assert_eq!(above.try_to_u64(), Err(BigIntOutOfRangeError::Overflow));
}

#[test]
fn bigdecimal_text_round_trip() {
    for text in ["0", "1", "-1", "1.5", "-0.00012", "123456789012345678901234567890.123456789", "50.000"] {
        let d = BigDecimal::parse(text).unwrap();
        assert_eq!(d.to_store_bytes(), text.as_bytes().to_vec());
        let back = BigDecimal::from_store_bytes(&d.to_store_bytes());
        assert_eq!(back.to_store_bytes(), text.as_bytes().to_vec());
    }
    assert!(BigDecimal::from_store_bytes(b"").is_zero());
    assert!(BigDecimal::try_from_store_bytes(b"one").is_none());
    assert!(BigDecimal::try_from_store_bytes(&[0xff, 0x31]).is_none());
}

#[test]
fn bigdecimal_parts_and_arithmetic() {
    let d = BigDecimal::new(BigInt::from_i64(-125), -2);
    assert_eq!(d.to_store_bytes(), b"-1.25".to_vec());
    let (digits, scale) = d.as_bigint_and_exponent();
    assert_eq!(digits.to_store_bytes(), b"-125".to_vec());
    assert_eq!(scale, 2);
    assert_eq!(d.neg().to_store_bytes(), b"1.25".to_vec());
    assert_eq!(d.absolute().to_store_bytes(), b"1.25".to_vec());
    assert!(d.in_range());
    let e = BigDecimal::parse("0.75").unwrap();
    assert_eq!(d.add(&e).to_store_bytes(), b"-0.50".to_vec());
    assert!(d.lt(&e));
    assert!(!e.lt(&d));
    assert!(BigDecimal::zero().is_zero());
    assert!(!BigDecimal::one().is_zero());
    assert_eq!(BigDecimal::one().to_store_bytes(), b"1".to_vec());
    assert!(BigDecimal::new(BigInt::one(), 7000).in_range());
    assert!(BigDecimal::new(BigInt::one(), -7000).in_range());
    assert!(BigDecimal::new(BigInt::one(), 0x2000_0000_0000_0000).in_range());
    assert!(BigDecimal::new(BigInt::one(), -0x2000_0000_0000_0000).in_range());
    assert!(!BigDecimal::new(BigInt::one(), 0x2000_0000_0000_0001).in_range());
    assert!(!BigDecimal::new(BigInt::one(), -0x2000_0000_0000_0001).in_range());
}

#[test]
fn bigdecimal_with_a_long_run_of_zeros() {
    let small = BigDecimal::new(BigInt::one(), -7000);
    let mut expected = b"0.".to_vec();
    expected.extend(std::iter::repeat(b'0').take(6999));
    expected.push(b'1');
    assert_eq!(small.to_store_bytes(), expected);
    assert_eq!(small.try_to_store_bytes(), Some(expected.clone()));
    let back = BigDecimal::from_store_bytes(&expected);
    let (digits, scale) = back.as_bigint_and_exponent();
    assert!(digits.is_one());
    assert_eq!(scale, 7000);

    let large = BigDecimal::new(BigInt::from_i64(-12), 7000);
    let mut expected = b"-12".to_vec();
    expected.extend(std::iter::repeat(b'0').take(7000));
    assert_eq!(large.to_store_bytes(), expected);
    assert!(small.lt(&BigDecimal::one()));
    assert!(large.lt(&small));
    let sum = small.add(&BigDecimal::one());
    let (digits, scale) = sum.as_bigint_and_exponent();
    assert_eq!(scale, 7000);
    assert_eq!(digits.to_store_bytes().len(), 7001);
}

#[test]
fn bigint_texts_that_are_read() {
    for (text, value) in [
        ("0", "0"),
        ("-0", "0"),
        ("+5", "5"),
        ("-5", "-5"),
        ("007", "7"),
        ("1_000", "1000"),
        ("1__0_", "10"),
        ("-1_2", "-12"),
        ("123456789012345678901234567890", "123456789012345678901234567890"),
    ] {
        let n = BigInt::parse(text).unwrap();
        assert_eq!(String::from_utf8(n.to_store_bytes()).unwrap(), value, "{}", text);
    }
}

#[test]
fn bigint_texts_that_are_not_read() {
    for text in ["", "-", "+", "_1", "-_1", "+_1", "-+5", "+-5", "++5", "--5", "5-", "1.0", " 1", "1 ", "1e3", "0x10", "\u{663}"] {
        assert!(BigInt::parse(text).is_none(), "{}", text);
    }
}

#[test]
fn bigdecimal_texts_that_are_read() {
    for (text, digits, scale) in [
        ("0", "0", 0i64),
        ("1.50", "150", 2),
        ("-.5", "-5", 1),
        ("+.5", "5", 1),
        ("5.", "5", 0),
        ("1_0.5", "105", 1),
        ("1.5_", "15", 2),
        ("1.5e1", "15", 0),
        ("1.5E3", "15", -2),
        ("15e-1", "15", 1),
        ("1e+2", "1", -2),
        ("1e+-2", "1", 2),
        ("1e0002", "1", -2),
        ("-0.00", "0", 2),
    ] {
        let d = BigDecimal::parse(text).unwrap();
        let (found, at) = d.as_bigint_and_exponent();
        assert_eq!(String::from_utf8(found.to_store_bytes()).unwrap(), digits, "{}", text);
        assert_eq!(at, scale, "{}", text);
    }
}

#[test]
fn bigdecimal_texts_that_are_not_read() {
    for text in ["", ".", "-", "e", "e1", "1e", "1e+", "1e1.5", "1.2.3", "_1", "._1", "1e1_0", "1e 1", " 1", "1,5", "1e99999999999999999999"] {
        assert!(BigDecimal::parse(text).is_none(), "{}", text);
    }
}

#[test]
fn big_numbers_are_read_back_as_written() {
    for v in [0i64, 1, -1, 10, -10, 99, 1234567890, i64::MIN, i64::MAX] {
        let n = BigInt::from_i64(v);
        let back = BigInt::from_store_bytes(&n.to_store_bytes());
        assert!(back.equals(&n));
    }
    for (digits, exp) in [(0i64, 0i64), (0, -3), (5, -1), (-5, -3), (125, -2), (-125, -1), (1200, -2), (7, -40)] {
        let d = BigDecimal::new(BigInt::from_i64(digits), exp);
        let back = BigDecimal::from_store_bytes(&d.to_store_bytes());
        let (found, scale) = back.as_bigint_and_exponent();
        assert!(found.equals(&BigInt::from_i64(digits)));
        assert_eq!(scale, -exp);
    }
    for (digits, exp, written) in [(5i64, 3i64, 5000i64), (-12, 1, -120), (0, 2, 0)] {
        let d = BigDecimal::new(BigInt::from_i64(digits), exp);
        let back = BigDecimal::from_store_bytes(&d.to_store_bytes());
        let (found, scale) = back.as_bigint_and_exponent();
        assert!(found.equals(&BigInt::from_i64(written)));
        assert_eq!(scale, 0);
    }
}

fn big_uint(input: u64) -> BigInt {
    BigInt::from_u64(input)
}

fn big_int(input: i64) -> BigInt {
    BigInt::from_i64(input)
}

fn same(a: BigInt, b: BigInt) {
    assert!(a.equals(&b), "{:?} is not {:?}", a.to_store_bytes(), b.to_store_bytes());
}

#[test]
fn bigint_op_int() {
    same(big_int(1).add(&big_int(1 as i32 as i64)), big_int(2));
    same(big_int(1).add(&big_int(1 as i64)), big_int(2));
    same(big_int(1).add(&big_uint(1 as u32 as u64)), big_int(2));
    same(big_int(1).add(&big_uint(1 as u64)), big_int(2));
    same(big_int(1).add(&big_int(1 as isize as i64)), big_int(2));
    same(big_int(1).add(&big_uint(1 as usize as u64)), big_int(2));
    same(big_int(1).add(&big_int(1)), big_int(2));
    same(big_int(1).sub(&big_int(1 as i32 as i64)), big_int(0));
    same(big_int(1).sub(&big_int(1 as i64)), big_int(0));
    same(big_int(1).sub(&big_uint(1 as u32 as u64)), big_int(0));
    same(big_int(1).sub(&big_uint(1 as u64)), big_int(0));
    same(big_int(1).sub(&big_int(1 as isize as i64)), big_int(0));
    same(big_int(1).sub(&big_uint(1 as usize as u64)), big_int(0));
    same(big_int(1).sub(&big_int(1)), big_int(0));
    same(big_int(2).mul(&big_int(2 as i32 as i64)), big_int(4));
    same(big_int(2).mul(&big_int(2 as i64)), big_int(4));
    same(big_int(2).mul(&big_uint(2 as u32 as u64)), big_int(4));
    same(big_int(2).mul(&big_uint(2 as u64)), big_int(4));
    same(big_int(2).mul(&big_int(2 as isize as i64)), big_int(4));
    same(big_int(2).mul(&big_uint(2 as usize as u64)), big_int(4));
    same(big_int(2).mul(&big_int(2)), big_int(4));
    same(big_int(4).div(&big_int(2 as i32 as i64)), big_int(2));
    same(big_int(4).div(&big_int(2 as i64)), big_int(2));
    same(big_int(4).div(&big_uint(2 as u32 as u64)), big_int(2));
    same(big_int(4).div(&big_uint(2 as u64)), big_int(2));
    same(big_int(4).div(&big_int(2 as isize as i64)), big_int(2));
    same(big_int(4).div(&big_uint(2 as usize as u64)), big_int(2));
    same(big_int(4).div(&big_int(2)), big_int(2));
    same(big_int(3).div(&big_int(2 as i32 as i64)), big_int(1));
    same(big_int(3).div(&big_int(2 as i64)), big_int(1));
    same(big_int(3).div(&big_uint(2 as u32 as u64)), big_int(1));
    same(big_int(3).div(&big_uint(2 as u64)), big_int(1));
    same(big_int(3).div(&big_int(2 as isize as i64)), big_int(1));
    same(big_int(3).div(&big_uint(2 as usize as u64)), big_int(1));
    same(big_int(3).div(&big_int(2)), big_int(1));
}

#[test]
fn big_uint_minus_int_is_signed() {
    same(big_uint(1).sub(&big_int(2 as i32 as i64)), big_int(-1));
    same(big_uint(1).sub(&big_int(2 as i64)), big_int(-1));
    same(big_uint(1).sub(&big_uint(2 as u32 as u64)), big_int(-1));
    same(big_uint(1).sub(&big_uint(2 as u64)), big_int(-1));
    same(big_uint(1).sub(&big_int(2 as isize as i64)), big_int(-1));
    same(big_uint(1).sub(&big_uint(2 as usize as u64)), big_int(-1));
    same(big_uint(1).sub(&big_int(2)), big_int(-1));
}

#[test]
fn int_op_bigint() {
    same(big_int(1 as i32 as i64).add(&big_int(1)), big_int(2));
    same(big_int(1 as i64).add(&big_int(1)), big_int(2));
    same(big_uint(1 as u32 as u64).add(&big_int(1)), big_int(2));
    same(big_uint(1 as u64).add(&big_int(1)), big_int(2));
    same(big_int(1 as isize as i64).add(&big_int(1)), big_int(2));
    same(big_uint(1 as usize as u64).add(&big_int(1)), big_int(2));
    same(big_int(1).add(&big_int(1)), big_int(2));
    same(big_int(1 as i32 as i64).sub(&big_int(1)), big_int(0));
    same(big_int(1 as i64).sub(&big_int(1)), big_int(0));
    same(big_uint(1 as u32 as u64).sub(&big_int(1)), big_int(0));
    same(big_uint(1 as u64).sub(&big_int(1)), big_int(0));
    same(big_int(1 as isize as i64).sub(&big_int(1)), big_int(0));
    same(big_uint(1 as usize as u64).sub(&big_int(1)), big_int(0));
    same(big_int(1).sub(&big_int(1)), big_int(0));
    same(big_int(2 as i32 as i64).mul(&big_int(2)), big_int(4));
    same(big_int(2 as i64).mul(&big_int(2)), big_int(4));
    same(big_uint(2 as u32 as u64).mul(&big_int(2)), big_int(4));
    same(big_uint(2 as u64).mul(&big_int(2)), big_int(4));
    same(big_int(2 as isize as i64).mul(&big_int(2)), big_int(4));
    same(big_uint(2 as usize as u64).mul(&big_int(2)), big_int(4));
    same(big_int(2).mul(&big_int(2)), big_int(4));
    same(big_int(4 as i32 as i64).div(&big_int(2)), big_int(2));
    same(big_int(4 as i64).div(&big_int(2)), big_int(2));
    same(big_uint(4 as u32 as u64).div(&big_int(2)), big_int(2));
    same(big_uint(4 as u64).div(&big_int(2)), big_int(2));
    same(big_int(4 as isize as i64).div(&big_int(2)), big_int(2));
    same(big_uint(4 as usize as u64).div(&big_int(2)), big_int(2));
    same(big_int(4).div(&big_int(2)), big_int(2));
    same(big_int(3 as i32 as i64).div(&big_int(2)), big_int(1));
    same(big_int(3 as i64).div(&big_int(2)), big_int(1));
    same(big_uint(3 as u32 as u64).div(&big_int(2)), big_int(1));
    same(big_uint(3 as u64).div(&big_int(2)), big_int(1));
    same(big_int(3 as isize as i64).div(&big_int(2)), big_int(1));
    same(big_uint(3 as usize as u64).div(&big_int(2)), big_int(1));
    same(big_int(3).div(&big_int(2)), big_int(1));
}

#[test]
fn bigint_division_rounds_toward_zero() {
    same(big_int(-7).div(&big_int(2)), big_int(-3));
    same(big_int(7).div(&big_int(-2)), big_int(-3));
    same(big_int(-7).div(&big_int(-2)), big_int(3));
    same(big_int(0).div(&big_int(-2)), big_int(0));
    assert!(!big_int(1).equals(&big_int(-1)));
}

#[test]
fn bigdecimal_exponents() {
    assert_eq!(BigDecimal::parse("1e3").unwrap().to_store_bytes(), b"1000".to_vec());
    assert_eq!(BigDecimal::parse("1.5E+2").unwrap().to_store_bytes(), b"150".to_vec());
    assert_eq!(BigDecimal::parse("15e-1").unwrap().to_store_bytes(), b"1.5".to_vec());
    assert!(BigDecimal::parse("1e-9223372036854775808").is_none());
    assert!(BigDecimal::parse("1e-4611686018427387905").is_none());
    let small = BigDecimal::parse("1e-4611686018427387904").unwrap();
    assert!(!small.in_range());
    assert_eq!(small.try_to_store_bytes(), None);
    assert!(BigDecimal::parse("1e").is_none());
    assert!(BigDecimal::parse("e5").is_none());
    assert!(BigDecimal::parse("1e5e5").is_none());
    assert!(BigDecimal::try_from_store_bytes(b"1e-9223372036854775808").is_none());
    assert_eq!(
        BigDecimal::parse("2.50").unwrap().try_to_store_bytes(),
        Some(b"2.50".to_vec())
    );
}

#[test]
fn bigdecimal_text_forms() {
    for (digits, exp, text) in [
        (0i64, 0i64, "0"),
        (0, -2, "0.00"),
        (0, 3, "0000"),
        (5, 0, "5"),
        (-5, 0, "-5"),
        (5, -1, "0.5"),
        (5, -3, "0.005"),
        (-5, -3, "-0.005"),
        (125, -2, "1.25"),
        (-125, -1, "-12.5"),
        (125, -3, "0.125"),
        (125, 2, "12500"),
        (-1, 1, "-10"),
        (1200, -2, "12.00"),
    ] {
        let d = BigDecimal::new(BigInt::from_i64(digits), exp);
        assert_eq!(String::from_utf8(d.to_store_bytes()).unwrap(), text);
    }
}

fn decimal(text: &str) -> BigDecimal {
    BigDecimal::parse(text).unwrap()
}

fn written(d: &BigDecimal) -> String {
    String::from_utf8(d.to_store_bytes()).unwrap()
}

#[test]
fn bigint_powers() {
    same(big_int(2).pow(10), big_int(1024));
    same(big_int(-3).pow(3), big_int(-27));
    same(big_int(-2).pow(2), big_int(4));
    same(big_int(0).pow(0), big_int(1));
    same(big_int(0).pow(5), big_int(0));
    same(big_int(7).pow(1), big_int(7));
    same(big_int(10).pow(30), BigInt::parse("1000000000000000000000000000000").unwrap());
}

#[test]
fn bigint_bytes() {
    same(BigInt::from_unsigned_bytes_le(&[1, 2]), big_int(513));
    same(BigInt::from_unsigned_bytes_be(&[1, 2]), big_int(258));
    same(BigInt::from_unsigned_bytes_le(&[]), big_int(0));
    same(BigInt::from_unsigned_bytes_be(&[]), big_int(0));
    same(BigInt::from_unsigned_bytes_be(&[0, 0, 1, 0, 0]), big_int(65536));
    same(BigInt::from_bytes_le(Sign::Minus, &[5]), big_int(-5));
    same(BigInt::from_bytes_le(Sign::Plus, &[5, 1]), big_int(261));
    same(BigInt::from_bytes_le(Sign::NoSign, &[5]), big_int(0));
    assert_eq!(big_int(513).to_bytes_le(), (Sign::Plus, vec![1, 2]));
    assert_eq!(big_int(513).to_bytes_be(), (Sign::Plus, vec![2, 1]));
    assert_eq!(big_int(-5).to_bytes_le(), (Sign::Minus, vec![5]));
    assert_eq!(big_int(0).to_bytes_le(), (Sign::NoSign, vec![0]));
    assert_eq!(big_int(0).to_bytes_be(), (Sign::NoSign, vec![0]));
    assert_eq!(big_int(i64::MIN).to_bytes_be(), (Sign::Minus, vec![128, 0, 0, 0, 0, 0, 0, 0]));
}

#[test]
fn bigdecimal_differences_and_products() {
    assert_eq!(written(&decimal("1.5").sub(&decimal("0.25"))), "1.25");
    assert_eq!(written(&decimal("0.25").sub(&decimal("1.5"))), "-1.25");
    assert_eq!(written(&decimal("2").sub(&decimal("2.00"))), "0.00");
    assert_eq!(written(&decimal("1.5").mul(&decimal("0.2"))), "0.30");
    assert_eq!(written(&decimal("-1.5").mul(&decimal("4"))), "-6.0");
    assert_eq!(written(&decimal("1.00").mul(&decimal("2.5"))), "2.5");
    assert_eq!(written(&decimal("2.5").mul(&decimal("1.00"))), "2.5");
    assert_eq!(written(&decimal("1").mul(&decimal("1.00"))), "1.00");
    assert_eq!(written(&decimal("0").mul(&decimal("2.5"))), "0.0");
}

#[test]
fn bigdecimal_quotients() {
    assert_eq!(written(&decimal("1").div(&decimal("4"))), "0.25");
    assert_eq!(written(&decimal("-6").div(&decimal("1.5"))), "-4");
    assert_eq!(written(&decimal("0").div(&decimal("7"))), "0");
    let third = written(&decimal("10").div(&decimal("3")));
    assert!(third.starts_with("3.3333333333"));
    assert_eq!(third.len(), 101);
    assert_eq!(written(&BigDecimal::divide_by_decimals(decimal("12345"), 2)), "123.45");
    assert_eq!(written(&BigDecimal::divide_by_decimals(decimal("12345"), 0)), "12345");
    assert_eq!(written(&big_int(5).to_decimal(1)), "0.5");
    assert_eq!(written(&big_int(-1).to_decimal(18)), "-0.000000000000000001");
}

#[test]
fn bigdecimal_whole_parts() {
    same(decimal("12.99").to_bigint(), big_int(12));
    same(decimal("-12.99").to_bigint(), big_int(-12));
    same(decimal("0.99").to_bigint(), big_int(0));
    same(decimal("-0.99").to_bigint(), big_int(0));
    same(decimal("12e3").to_bigint(), big_int(12000));
    same(decimal("7").to_bigint(), big_int(7));
    same(decimal("0.000").to_bigint(), big_int(0));
}
