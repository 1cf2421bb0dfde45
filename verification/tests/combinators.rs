use datafix::fixers::{FnRule, Repair};
use datafix::number::Number;
use datafix::result::DataError;
use datafix::serialization::builtins::codecs::DynamicCodec;
use datafix::serialization::builtins::interval::{Interval, Limit};
use datafix::serialization::json::{Json, JsonOps};
use datafix::serialization::ops::CodecOps;
use datafix::serialization::views::{CodecViews, MapView, MapViewMut};
use datafix::serialization::{Codec, CodecAdapters, Codecs, DefaultCodec};
use either::Either;

fn number(value: f64) -> Number {
    Number::from_bits(value.to_bits())
}

#[test]
fn list_codec_stops_at_the_first_failing_element() {
    let codec = i32::codec().bounded(0..10).list_of();
    assert_eq!(
        codec.encode(&JsonOps, &vec![1, 50, 2]),
        Err(DataError::ValidationFailed("value must be within the bounds".to_string()))
    );
    let mut node = JsonOps.create_list(vec![
        JsonOps.create_number(&number(1.0)),
        JsonOps.create_string("two"),
        JsonOps.create_boolean(&true),
    ]);
    let result = i32::codec().list_of().decode(&JsonOps, &mut node);
    assert!(matches!(result, Err(DataError::ShapeMismatch { .. })));
}

#[test]
fn list_codec_rejects_what_is_not_a_list() {
    let mut node = JsonOps.create_unit();
    let result = i32::codec().list_of().decode(&JsonOps, &mut node);
    assert!(matches!(result, Err(DataError::ShapeMismatch { .. })));
}

#[test]
fn list_codec_of_nothing() {
    let value: Vec<String> = Vec::new();
    let codec = String::codec().list_of();
    let mut encoded = codec.encode(&JsonOps, &value).unwrap();
    assert_eq!(encoded, Json::List(vec![]));
    assert_eq!(codec.decode(&JsonOps, &mut encoded).unwrap(), value);
}

#[test]
fn pair_codec_needs_both_keys() {
    let codec = i32::codec().pair(String::codec());
    let mut encoded = codec.encode(&JsonOps, &(15, "Hello".to_string())).unwrap();
    JsonOps.get_map_mut(&mut encoded).unwrap().remove("right").unwrap();
    assert_eq!(
        codec.decode(&JsonOps, &mut encoded),
        Err(DataError::KeyNotFound("right".to_string()))
    );
    JsonOps.get_map_mut(&mut encoded).unwrap().remove("left").unwrap();
    assert_eq!(
        codec.decode(&JsonOps, &mut encoded),
        Err(DataError::KeyNotFound("left".to_string()))
    );
}

#[test]
fn bounded_codec_checks_what_it_decodes() {
    let codec = i32::codec().bounded(1..30);
    let mut inside = JsonOps.create_number(&number(29.0));
    assert_eq!(codec.decode(&JsonOps, &mut inside), Ok(29));
    let mut outside = JsonOps.create_number(&number(30.0));
    assert_eq!(
        codec.decode(&JsonOps, &mut outside),
        Err(DataError::ValidationFailed("value must be within the bounds".to_string()))
    );
    let mut below = JsonOps.create_number(&number(0.0));
    assert!(codec.decode(&JsonOps, &mut below).is_err());
}

#[test]
fn bounded_codec_takes_each_bound_with_its_kind() {
    let closed = i32::codec().bounded(1..=30);
    assert!(closed.encode(&JsonOps, &30).is_ok());
    assert!(closed.encode(&JsonOps, &1).is_ok());
    assert!(closed.encode(&JsonOps, &31).is_err());
    assert!(closed.encode(&JsonOps, &0).is_err());
    let mut thirty = JsonOps.create_number(&number(30.0));
    assert_eq!(closed.decode(&JsonOps, &mut thirty), Ok(30));

    let up_to = i32::codec().bounded(..30);
    assert!(up_to.encode(&JsonOps, &i32::MIN).is_ok());
    assert!(up_to.encode(&JsonOps, &29).is_ok());
    assert!(up_to.encode(&JsonOps, &30).is_err());

    let up_to_and_with = i32::codec().bounded(..=30);
    assert!(up_to_and_with.encode(&JsonOps, &30).is_ok());
    assert!(up_to_and_with.encode(&JsonOps, &31).is_err());

    let from = i32::codec().bounded(1..);
    assert!(from.encode(&JsonOps, &0).is_err());
    assert!(from.encode(&JsonOps, &1).is_ok());
    assert!(from.encode(&JsonOps, &i32::MAX).is_ok());

    let all = i32::codec().bounded(..);
    assert!(all.encode(&JsonOps, &i32::MIN).is_ok());
    assert!(all.encode(&JsonOps, &i32::MAX).is_ok());

    let open = i32::codec().bounded(Interval::new(Limit::Excluded(1), Limit::Excluded(30)));
    assert!(open.encode(&JsonOps, &1).is_err());
    assert!(open.encode(&JsonOps, &2).is_ok());
    assert!(open.encode(&JsonOps, &29).is_ok());
    assert!(open.encode(&JsonOps, &30).is_err());
}

#[test]
fn interval_contains_what_lies_between_its_limits() {
    let interval = Interval::new(Limit::Excluded(1), Limit::Included(3));
    assert!(!interval.contains(&1));
    assert!(interval.contains(&2));
    assert!(interval.contains(&3));
    assert!(!interval.contains(&4));
    let half_open: Interval<i32> = (1..3).into();
    assert!(half_open.contains(&1) && !half_open.contains(&3));
    let closed: Interval<i32> = (1..=3).into();
    assert!(closed.contains(&1) && closed.contains(&3) && !closed.contains(&4));
}

#[test]
fn try_else_falls_back_in_both_directions() {
    let codec = i32::codec().bounded(0..10).try_else(i32::codec().bounded(100..110));
    assert!(codec.encode(&JsonOps, &5).is_ok());
    assert!(codec.encode(&JsonOps, &105).is_ok());
    assert!(codec.encode(&JsonOps, &50).is_err());

    let mut node = JsonOps.create_number(&number(105.0));
    assert_eq!(codec.decode(&JsonOps, &mut node), Ok(105));
    let mut node = JsonOps.create_number(&number(50.0));
    assert!(codec.decode(&JsonOps, &mut node).is_err());
}

#[test]
fn try_else_reports_the_second_failure() {
    let codec = String::codec().xmap(|s: &String| s.len() as i32, |n: &i32| n.to_string())
        .try_else(i32::codec().bounded(0..10));
    let mut node = JsonOps.create_boolean(&true);
    let result = codec.decode(&JsonOps, &mut node);
    assert!(matches!(
        result,
        Err(DataError::ShapeMismatch { expected: datafix::result::Shape::Number, .. })
    ));
}

#[test]
fn or_else_puts_the_default_in_place_of_a_failure() {
    let codec = i32::codec().or_else(|| 7);
    let mut text = JsonOps.create_string("seven");
    assert_eq!(codec.decode(&JsonOps, &mut text), Ok(7));
    let mut three = JsonOps.create_number(&number(3.0));
    assert_eq!(codec.decode(&JsonOps, &mut three), Ok(3));
    assert_eq!(codec.encode(&JsonOps, &9), Ok(JsonOps.create_number(&number(9.0))));
}

#[test]
fn either_codec_tries_left_then_right() {
    let codec = Codecs::either(i32::codec(), String::codec());
    let left: Either<i32, String> = Either::Left(4);
    let right: Either<i32, String> = Either::Right("four".to_string());

    let mut encoded = codec.encode(&JsonOps, &left).unwrap();
    assert_eq!(encoded, JsonOps.create_number(&number(4.0)));
    assert_eq!(codec.decode(&JsonOps, &mut encoded), Ok(left));

    let mut encoded = codec.encode(&JsonOps, &right).unwrap();
    assert_eq!(encoded, JsonOps.create_string("four"));
    assert_eq!(codec.decode(&JsonOps, &mut encoded), Ok(right));

    let mut neither = JsonOps.create_boolean(&true);
    assert!(matches!(
        codec.decode(&JsonOps, &mut neither),
        Err(DataError::ShapeMismatch { expected: datafix::result::Shape::String, .. })
    ));
}

#[test]
fn either_codec_prefers_the_left_arm() {
    let codec = Codecs::either(i32::codec(), i64::codec());
    let mut node = JsonOps.create_number(&number(4.0));
    assert_eq!(codec.decode(&JsonOps, &mut node), Ok(Either::Left(4)));
}

#[test]
fn dispatch_codec_selects_by_value_and_by_representation() {
    let codec = Codecs::dispatch(
        |value: &i32| -> Result<DynamicCodec<i32, Json, JsonOps>, DataError> {
            if *value >= 0 {
                Ok(i32::codec().dynamic())
            } else {
                Err(DataError::new_custom("negative"))
            }
        },
        |ops: &JsonOps, node: &Json| -> Result<DynamicCodec<i32, Json, JsonOps>, DataError> {
            match ops.get_number(node) {
                Ok(_) => Ok(i32::codec().dynamic()),
                Err(_) => Ok(String::codec()
                    .xmap(|s: &String| s.len() as i32, |n: &i32| n.to_string())
                    .dynamic()),
            }
        },
    );
    let mut encoded = codec.encode(&JsonOps, &12).unwrap();
    assert_eq!(codec.decode(&JsonOps, &mut encoded), Ok(12));
    assert_eq!(
        codec.encode(&JsonOps, &-1),
        Err(DataError::ValidationFailed("negative".to_string()))
    );
    let mut text = JsonOps.create_string("abc");
    assert_eq!(codec.decode(&JsonOps, &mut text), Ok(3));
}

#[test]
fn unit_codec() {
    let codec = Codecs::unit();
    let mut encoded: Json = codec.encode(&JsonOps, &()).unwrap();
    assert_eq!(encoded, Json::Unit);
    assert_eq!(codec.decode(&JsonOps, &mut encoded), Ok(()));
    let mut other = JsonOps.create_map(vec![]);
    assert!(matches!(codec.decode(&JsonOps, &mut other), Err(DataError::ShapeMismatch { .. })));
}

#[test]
fn boxed_codec() {
    let codec = String::codec().boxed();
    let value = Box::new("boxed".to_string());
    let mut encoded = codec.encode(&JsonOps, &value).unwrap();
    assert_eq!(encoded, JsonOps.create_string("boxed"));
    assert_eq!(codec.decode(&JsonOps, &mut encoded), Ok(value));
}

#[test]
fn arc_codec_can_be_shared() {
    let codec = String::codec().arc();
    let other = codec.clone();
    let value = "shared".to_string();
    let mut encoded = codec.encode(&JsonOps, &value).unwrap();
    assert_eq!(other.decode(&JsonOps, &mut encoded), Ok(value));
}

#[test]
fn xmap_codec_applies_both_functions() {
    let codec = i32::codec().xmap(|x| x * 5, |x| x / 5);
    assert_eq!(codec.encode(&JsonOps, &15), Ok(JsonOps.create_number(&number(3.0))));
    let mut node = JsonOps.create_number(&number(3.0));
    assert_eq!(codec.decode(&JsonOps, &mut node), Ok(15));
}

fn rename_volume(ops: &JsonOps, value: Json) -> Json {
    let mut value = value;
    if let Ok(mut lens) = ops.get_map_mut(&mut value) {
        if let Ok(old) = lens.remove("vol") {
            lens.set("volume", old);
        }
    }
    value
}

#[test]
fn repair_rewrites_a_value() {
    let old = JsonOps.create_map(vec![("vol".to_string(), JsonOps.create_number(&number(3.0)))]);
    let repaired = JsonOps.repair(old, FnRule::new(rename_volume));
    assert_eq!(JsonOps.get_map(&repaired).unwrap().keys(), vec!["volume".to_string()]);
}

#[test]
fn repaired_codec_fixes_the_node_in_place_before_decoding() {
    let codec = datafix::serialization::builtins::record_builder::MapCodecBuilder::new()
        .field(i32::codec().field_of("volume", |v: &i32| v))
        .build(|((), volume)| volume)
        .repaired_with(FnRule::new(rename_volume));
    let mut old = JsonOps.create_map(vec![("vol".to_string(), JsonOps.create_number(&number(3.0)))]);
    assert_eq!(codec.decode(&JsonOps, &mut old), Ok(3));
    assert_eq!(JsonOps.get_map(&old).unwrap().keys(), vec!["volume".to_string()]);
    assert_eq!(
        codec.encode(&JsonOps, &3),
        Ok(JsonOps.create_map(vec![("volume".to_string(), JsonOps.create_number(&number(3.0)))]))
    );
}
