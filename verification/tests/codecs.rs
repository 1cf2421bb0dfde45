use datafix::number::Number;
use datafix::serialization::json::{Json, JsonOps};
use datafix::serialization::ops::CodecOps;
use datafix::serialization::views::{CodecViews, MapView};
use datafix::serialization::{Codec, CodecAdapters, DefaultCodec};

fn number(value: f64) -> Number {
    Number::from_bits(value.to_bits())
}

fn float(value: Number) -> f64 {
    f64::from_bits(value.to_bits())
}

#[test]
fn f64_codec() {
    let value = number(10.0);
    let mut encoded = Number::codec().encode(&JsonOps, &value).unwrap();
    let decoded = Number::codec().decode(&JsonOps, &mut encoded).unwrap();

    assert_eq!(value, decoded);
    assert_eq!(float(decoded), 10.0);
}

#[test]
fn string_codec() {
    let value: String = "Hello!".into();
    let mut encoded = String::codec().encode(&JsonOps, &value).unwrap();
    let decoded = String::codec().decode(&JsonOps, &mut encoded).unwrap();

    assert_eq!(value, decoded);
}

#[test]
fn bool_codec() {
    let value = true;
    let mut encoded = bool::codec().encode(&JsonOps, &value).unwrap();
    let decoded = bool::codec().decode(&JsonOps, &mut encoded).unwrap();

    assert_eq!(value, decoded);
}

#[test]
fn numeric_codec() {
    let value = 10;
    let mut encoded = i32::codec().encode(&JsonOps, &value).unwrap();
    let decoded = i32::codec().decode(&JsonOps, &mut encoded).unwrap();

    assert_eq!(value, decoded);

    let value = 10;
    let mut encoded = i64::codec().encode(&JsonOps, &value).unwrap();
    let decoded = i64::codec().decode(&JsonOps, &mut encoded).unwrap();

    assert_eq!(value, decoded);
}

#[test]
fn list_codec() {
    let value = vec![10, 20, 30];
    let mut encoded = i32::codec().list_of().encode(&JsonOps, &value).unwrap();
    let decoded = i32::codec()
        .list_of()
        .decode(&JsonOps, &mut encoded)
        .unwrap();

    assert_eq!(value, decoded);
}

#[test]
fn xmap_codec() {
    let value = 15;
    let codec = i32::codec().xmap(|x| x * 5, |x| x / 5);
    let mut encoded = codec.encode(&JsonOps, &value).unwrap();
    let decoded = codec.decode(&JsonOps, &mut encoded).unwrap();

    assert_eq!(value, decoded);
}

#[test]
fn pair_codec() {
    let value = (15, "Hello".to_string());
    let codec = i32::codec().pair(String::codec());
    let mut encoded = codec.encode(&JsonOps, &value).unwrap();
    let decoded = codec.decode(&JsonOps, &mut encoded).unwrap();

    assert_eq!(value, decoded);
}

#[test]
fn bounded_codec() {
    let value = 15;
    let codec = i32::codec().bounded(1..30);
    let mut encoded = codec.encode(&JsonOps, &value).unwrap();
    let decoded = codec.decode(&JsonOps, &mut encoded).unwrap();

    assert_eq!(value, decoded);

    assert!(codec.encode(&JsonOps, &75).is_err());
    assert!(codec.encode(&JsonOps, &1).is_ok());
    assert!(codec.encode(&JsonOps, &30).is_err());
}

#[test]
fn dynamic_codec() {
    let value = number(10.0);
    let mut encoded = Number::codec().dynamic().encode(&JsonOps, &value).unwrap();
    let decoded = Number::codec()
        .dynamic()
        .decode(&JsonOps, &mut encoded)
        .unwrap();
    assert_eq!(decoded, value);
}

#[test]
fn arc_codec() {
    let value = number(10.0);
    let mut encoded = Number::codec().arc().encode(&JsonOps, &value).unwrap();
    let decoded = Number::codec()
        .dynamic()
        .decode(&JsonOps, &mut encoded)
        .unwrap();
    assert_eq!(decoded, value);
}

#[test]
fn pair_codec_writes_left_and_right() {
    let value = (15, "Hello".to_string());
    let codec = i32::codec().pair(String::codec());
    let encoded: Json = codec.encode(&JsonOps, &value).unwrap();
    let mut keys = JsonOps.get_map(&encoded).unwrap().keys();
    keys.sort();
    assert_eq!(keys, vec!["left".to_string(), "right".to_string()]);
    assert_eq!(
        JsonOps.get_number(JsonOps.get_map(&encoded).unwrap().get("left").unwrap()),
        Ok(number(15.0))
    );
}
