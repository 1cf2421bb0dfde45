use datafix::number::{F64Convertable, Number};
use datafix::serialization::json::JsonOps;
use datafix::serialization::{Codec, DefaultCodec};

fn number(value: f64) -> Number {
    Number::from_bits(value.to_bits())
}

#[test]
fn bits_go_in_and_out() {
    assert_eq!(Number::from_bits(0x4024_0000_0000_0000).to_bits(), 0x4024_0000_0000_0000);
    assert_eq!(f64::from_bits(Number::from_bits(0x4024_0000_0000_0000).to_bits()), 10.0);
}

#[test]
fn small_integers_become_the_numbers_they_are() {
    assert_eq!(0_i32.into_f64(), number(0.0));
    assert_eq!(1_i32.into_f64(), number(1.0));
    assert_eq!((-1_i32).into_f64(), number(-1.0));
    assert_eq!(10_i32.into_f64().to_bits(), 0x4024_0000_0000_0000);
    assert_eq!(255_u8.into_f64(), number(255.0));
    assert_eq!(i8::MIN.into_f64(), number(-128.0));
}

#[test]
fn conversion_to_a_number_agrees_with_the_cast() {
    let signed: [i64; 22] = [
        0,
        1,
        -1,
        2,
        3,
        1023,
        -4096,
        i32::MAX as i64,
        i32::MIN as i64,
        (1 << 52) - 1,
        1 << 52,
        (1 << 53) - 1,
        1 << 53,
        (1 << 53) + 1,
        (1 << 53) + 2,
        (1 << 53) + 3,
        (1 << 54) + 2,
        (1 << 54) + 6,
        -((1 << 53) + 1),
        i64::MAX,
        i64::MAX - 511,
        i64::MIN,
    ];
    for value in signed {
        assert_eq!(value.into_f64(), number(value as f64), "{}", value);
        assert_eq!(Number::from_i64(value), number(value as f64), "{}", value);
    }
    let unsigned: [u64; 12] = [
        0,
        1,
        (1 << 53) + 1,
        (1 << 53) + 3,
        (1 << 63) + 1024,
        (1 << 63) + 1025,
        (1 << 63) + 3072,
        u64::MAX,
        u64::MAX - 1023,
        u64::MAX - 1024,
        u64::MAX - 2047,
        0xffff_ffff_ffff_f400,
    ];
    for value in unsigned {
        assert_eq!(value.into_f64(), number(value as f64), "{}", value);
        assert_eq!(Number::from_u64(value), number(value as f64), "{}", value);
    }
    let mut value: u64 = 1;
    for _ in 0..2000 {
        value = value.wrapping_mul(6364136223846793005).wrapping_add(1442695040888963407);
        assert_eq!(value.into_f64(), number(value as f64), "{}", value);
        assert_eq!((value as i64).into_f64(), number((value as i64) as f64), "{}", value);
        assert_eq!((value as u32).into_f64(), number((value as u32) as f64), "{}", value);
        assert_eq!((value as i16).into_f64(), number((value as i16) as f64), "{}", value);
        assert_eq!((value as usize).into_f64(), number((value as usize) as f64), "{}", value);
        assert_eq!((value as isize).into_f64(), number((value as isize) as f64), "{}", value);
    }
}

#[test]
fn conversion_from_a_number_agrees_with_the_cast() {
    let values: [f64; 30] = [
        0.0,
        -0.0,
        0.5,
        -0.5,
        0.999,
        1.0,
        1.5,
        -1.5,
        2.75,
        127.0,
        127.9,
        128.0,
        -128.0,
        -128.9,
        -129.0,
        255.5,
        256.0,
        65535.9,
        2147483647.0,
        2147483648.0,
        -2147483648.0,
        -2147483649.0,
        4294967295.5,
        9007199254740992.0,
        9223372036854775807.0,
        18446744073709551615.0,
        1e300,
        -1e300,
        5e-324,
        1e19,
    ];
    for value in values {
        let n = number(value);
        assert_eq!(i8::from_f64(n), value as i8, "{}", value);
        assert_eq!(i16::from_f64(n), value as i16, "{}", value);
        assert_eq!(i32::from_f64(n), value as i32, "{}", value);
        assert_eq!(i64::from_f64(n), value as i64, "{}", value);
        assert_eq!(isize::from_f64(n), value as isize, "{}", value);
        assert_eq!(u8::from_f64(n), value as u8, "{}", value);
        assert_eq!(u16::from_f64(n), value as u16, "{}", value);
        assert_eq!(u32::from_f64(n), value as u32, "{}", value);
        assert_eq!(u64::from_f64(n), value as u64, "{}", value);
        assert_eq!(usize::from_f64(n), value as usize, "{}", value);
    }
    for special in [f64::NAN, f64::INFINITY, f64::NEG_INFINITY, -f64::NAN] {
        let n = number(special);
        assert_eq!(i32::from_f64(n), special as i32);
        assert_eq!(u64::from_f64(n), special as u64);
        assert_eq!(i64::from_f64(n), special as i64);
    }
    let mut bits: u64 = 7;
    for _ in 0..2000 {
        bits = bits.wrapping_mul(6364136223846793005).wrapping_add(1442695040888963407);
        let value = f64::from_bits(bits);
        let n = Number::from_bits(bits);
        assert_eq!(i32::from_f64(n), value as i32, "{}", value);
        assert_eq!(u64::from_f64(n), value as u64, "{}", value);
        assert_eq!(i64::from_f64(n), value as i64, "{}", value);
        assert_eq!(u8::from_f64(n), value as u8, "{}", value);
    }
}

#[test]
fn integers_up_to_two_to_the_53_round_trip() {
    for value in [0_i64, 1, -1, 1 << 52, (1 << 53) - 1, 1 << 53, -(1 << 53)] {
        let mut encoded = i64::codec().encode(&JsonOps, &value).unwrap();
        assert_eq!(i64::codec().decode(&JsonOps, &mut encoded), Ok(value));
    }
    let mut encoded = i64::codec().encode(&JsonOps, &((1 << 53) + 1)).unwrap();
    assert_eq!(i64::codec().decode(&JsonOps, &mut encoded), Ok(1 << 53));
}

#[test]
fn numeric_codecs_of_every_width_round_trip() {
    let mut encoded = i8::codec().encode(&JsonOps, &-7).unwrap();
    assert_eq!(i8::codec().decode(&JsonOps, &mut encoded), Ok(-7));
    let mut encoded = i16::codec().encode(&JsonOps, &-700).unwrap();
    assert_eq!(i16::codec().decode(&JsonOps, &mut encoded), Ok(-700));
    let mut encoded = u8::codec().encode(&JsonOps, &200).unwrap();
    assert_eq!(u8::codec().decode(&JsonOps, &mut encoded), Ok(200));
    let mut encoded = u16::codec().encode(&JsonOps, &60000).unwrap();
    assert_eq!(u16::codec().decode(&JsonOps, &mut encoded), Ok(60000));
    let mut encoded = u32::codec().encode(&JsonOps, &u32::MAX).unwrap();
    assert_eq!(u32::codec().decode(&JsonOps, &mut encoded), Ok(u32::MAX));
    let mut encoded = u64::codec().encode(&JsonOps, &(1 << 40)).unwrap();
    assert_eq!(u64::codec().decode(&JsonOps, &mut encoded), Ok(1 << 40));
    let mut encoded = usize::codec().encode(&JsonOps, &12345).unwrap();
    assert_eq!(usize::codec().decode(&JsonOps, &mut encoded), Ok(12345));
    let mut encoded = isize::codec().encode(&JsonOps, &-12345).unwrap();
    assert_eq!(isize::codec().decode(&JsonOps, &mut encoded), Ok(-12345));
}

#[test]
fn numeric_codec_holds_what_it_decodes_to_the_range() {
    let mut big = JsonOps_number(1000.0);
    assert_eq!(u8::codec().decode(&JsonOps, &mut big), Ok(255));
    let mut negative = JsonOps_number(-3.9);
    assert_eq!(u8::codec().decode(&JsonOps, &mut negative), Ok(0));
    assert_eq!(i8::codec().decode(&JsonOps, &mut negative), Ok(-3));
}

#[allow(non_snake_case)]
fn JsonOps_number(value: f64) -> datafix::serialization::json::Json {
    datafix::serialization::json::Json::Number(number(value))
}
