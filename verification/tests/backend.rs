use datafix::dynamic::Dynamic;
use datafix::number::Number;
use datafix::result::{DataError, Shape};
use datafix::serialization::json::{Json, JsonOps};
use datafix::serialization::ops::CodecOps;
use datafix::serialization::views::{
    CodecViews, ListView, ListViewMut, MapView, MapViewMut,
};

fn number(value: f64) -> Number {
    Number::from_bits(value.to_bits())
}

fn sample_map() -> Json {
    JsonOps.create_map(vec![
        ("a".to_string(), JsonOps.create_number(&number(1.0))),
        ("b".to_string(), JsonOps.create_string("two")),
    ])
}

#[test]
fn constructors_build_the_six_shapes() {
    assert_eq!(JsonOps.create_number(&number(1.5)), Json::Number(number(1.5)));
    assert_eq!(JsonOps.create_string("x"), Json::String("x".to_string()));
    assert_eq!(JsonOps.create_boolean(&true), Json::Boolean(true));
    assert_eq!(JsonOps.create_list(vec![Json::Unit]), Json::List(vec![Json::Unit]));
    assert_eq!(
        JsonOps.create_map(vec![("k".to_string(), Json::Unit)]),
        Json::Mapping(vec![("k".to_string(), Json::Unit)])
    );
    assert_eq!(JsonOps.create_unit(), Json::Unit);
}

#[test]
fn shape_names_the_shape() {
    assert_eq!(JsonOps.shape(&Json::Number(number(0.0))), Shape::Number);
    assert_eq!(JsonOps.shape(&Json::String(String::new())), Shape::String);
    assert_eq!(JsonOps.shape(&Json::Boolean(false)), Shape::Boolean);
    assert_eq!(JsonOps.shape(&Json::List(vec![])), Shape::List);
    assert_eq!(JsonOps.shape(&Json::Mapping(vec![])), Shape::Mapping);
    assert_eq!(JsonOps.shape(&Json::Unit), Shape::Unit);
}

#[test]
fn destructors_report_the_shape_they_met() {
    let text = JsonOps.create_string("x");
    assert_eq!(
        JsonOps.get_number(&text),
        Err(DataError::ShapeMismatch { expected: Shape::Number, actual: Shape::String })
    );
    assert_eq!(
        JsonOps.get_boolean(&text),
        Err(DataError::ShapeMismatch { expected: Shape::Boolean, actual: Shape::String })
    );
    assert_eq!(
        JsonOps.get_unit(&text),
        Err(DataError::ShapeMismatch { expected: Shape::Unit, actual: Shape::String })
    );
    assert_eq!(
        JsonOps.get_string(&Json::Unit),
        Err(DataError::ShapeMismatch { expected: Shape::String, actual: Shape::Unit })
    );
    assert_eq!(JsonOps.get_string(&text), Ok("x".to_string()));
    assert_eq!(JsonOps.get_unit(&Json::Unit), Ok(()));
    assert!(matches!(
        JsonOps.get_list(&text),
        Err(DataError::ShapeMismatch { expected: Shape::List, actual: Shape::String })
    ));
    assert!(matches!(
        JsonOps.get_map(&text),
        Err(DataError::ShapeMismatch { expected: Shape::Mapping, actual: Shape::String })
    ));
}

#[test]
fn create_map_keeps_the_later_of_two_entries_with_one_key() {
    let node = JsonOps.create_map(vec![
        ("k".to_string(), JsonOps.create_number(&number(1.0))),
        ("k".to_string(), JsonOps.create_number(&number(2.0))),
    ]);
    let lens = JsonOps.get_map(&node).unwrap();
    assert_eq!(lens.keys(), vec!["k".to_string()]);
    assert_eq!(JsonOps.get_number(lens.get("k").unwrap()), Ok(number(2.0)));
}

#[test]
fn create_map_special_skips_absent_entries() {
    let node = JsonOps
        .create_map_special(vec![
            Some(Ok(("a".to_string(), Json::Unit))),
            None,
            Some(Ok(("b".to_string(), Json::Boolean(true)))),
        ])
        .unwrap();
    let mut keys = JsonOps.get_map(&node).unwrap().keys();
    keys.sort();
    assert_eq!(keys, vec!["a".to_string(), "b".to_string()]);
}

#[test]
fn create_map_special_returns_the_first_failure() {
    let result = JsonOps.create_map_special(vec![
        Some(Ok(("a".to_string(), Json::Unit))),
        Some(Err(DataError::new_custom("first"))),
        Some(Err(DataError::new_custom("second"))),
    ]);
    assert_eq!(result, Err(DataError::ValidationFailed("first".to_string())));
}

#[test]
fn create_map_special_of_nothing_is_an_empty_map() {
    assert_eq!(JsonOps.create_map_special(vec![]), Ok(Json::Mapping(vec![])));
    assert_eq!(JsonOps.create_map_special(vec![None, None]), Ok(Json::Mapping(vec![])));
}

#[test]
fn map_view_gets_and_lists_keys() {
    let node = sample_map();
    let lens = JsonOps.get_map(&node).unwrap();
    assert_eq!(lens.get("b"), Ok(&Json::String("two".to_string())));
    assert_eq!(lens.get("c"), Err(DataError::KeyNotFound("c".to_string())));
    let mut keys = lens.keys();
    keys.sort();
    assert_eq!(keys, vec!["a".to_string(), "b".to_string()]);
}

#[test]
fn map_view_mut_changes_the_node_it_was_made_from() {
    let mut node = sample_map();
    {
        let mut lens = JsonOps.get_map_mut(&mut node).unwrap();
        lens.set("c", Json::Unit);
        lens.set("a", Json::Boolean(true));
        *lens.get_mut("b").unwrap() = Json::Boolean(false);
        assert_eq!(lens.get_mut("zz"), Err(DataError::KeyNotFound("zz".to_string())));
    }
    let lens = JsonOps.get_map(&node).unwrap();
    assert_eq!(lens.get("a"), Ok(&Json::Boolean(true)));
    assert_eq!(lens.get("b"), Ok(&Json::Boolean(false)));
    assert_eq!(lens.get("c"), Ok(&Json::Unit));
}

#[test]
fn map_view_mut_removes() {
    let mut node = sample_map();
    let mut lens = JsonOps.get_map_mut(&mut node).unwrap();
    assert_eq!(lens.remove("a"), Ok(Json::Number(number(1.0))));
    assert_eq!(lens.remove("a"), Err(DataError::KeyNotFound("a".to_string())));
    assert_eq!(lens.keys(), vec!["b".to_string()]);
}

#[test]
fn map_view_mut_removes_every_entry_with_the_key() {
    let mut node = Json::Mapping(vec![
        ("k".to_string(), Json::Boolean(true)),
        ("other".to_string(), Json::Unit),
        ("k".to_string(), Json::Boolean(false)),
    ]);
    let mut lens = JsonOps.get_map_mut(&mut node).unwrap();
    assert_eq!(lens.remove("k"), Ok(Json::Boolean(false)));
    assert_eq!(lens.get("k"), Err(DataError::KeyNotFound("k".to_string())));
    assert_eq!(lens.keys(), vec!["other".to_string()]);
}

#[test]
fn map_view_mut_updates_only_what_is_there() {
    let mut node = sample_map();
    let mut lens = JsonOps.get_map_mut(&mut node).unwrap();
    lens.update("a", |value| *value = Json::Unit);
    lens.update("missing", |value| *value = Json::Unit);
    assert_eq!(lens.get("a"), Ok(&Json::Unit));
    let mut keys = lens.keys();
    keys.sort();
    assert_eq!(keys, vec!["a".to_string(), "b".to_string()]);
}

#[test]
fn list_view_gets_by_index() {
    let node = JsonOps.create_list(vec![Json::Boolean(true), Json::Unit]);
    let lens = JsonOps.get_list(&node).unwrap();
    assert_eq!(lens.get(0), Ok(&Json::Boolean(true)));
    assert_eq!(lens.get(1), Ok(&Json::Unit));
    assert_eq!(lens.get(2), Err(DataError::IndexOutOfBounds { index: 2, length: 2 }));
    assert_eq!(lens.into_iter(), vec![Json::Boolean(true), Json::Unit]);
}

#[test]
fn list_view_mut_appends_and_writes() {
    let mut node = JsonOps.create_list(vec![Json::Boolean(true)]);
    {
        let mut lens = JsonOps.get_list_mut(&mut node).unwrap();
        lens.append(Json::Unit);
        *lens.get_mut(0).unwrap() = Json::Boolean(false);
        assert_eq!(lens.get_mut(2), Err(DataError::IndexOutOfBounds { index: 2, length: 2 }));
    }
    assert_eq!(node, Json::List(vec![Json::Boolean(false), Json::Unit]));
}

#[test]
fn duplicate_copies_the_whole_value() {
    let node = JsonOps.create_list(vec![sample_map(), Json::Unit]);
    assert_eq!(node.duplicate(), node);
}

#[test]
fn errors_describe_themselves() {
    assert_eq!(DataError::new_custom("bad").describe(), "bad");
    assert_eq!(DataError::new_key_not_found("k").describe(), "k");
    assert_eq!(
        DataError::new_shape_mismatch(Shape::List, Shape::Unit),
        DataError::ShapeMismatch { expected: Shape::List, actual: Shape::Unit }
    );
    assert_eq!(DataError::new_shape_mismatch(Shape::List, Shape::Unit).describe(), "shape mismatch");
    assert_eq!(
        DataError::new_index_out_of_bounds(3, 2),
        DataError::IndexOutOfBounds { index: 3, length: 2 }
    );
    assert_eq!(DataError::new_index_out_of_bounds(3, 2).describe(), "index out of bounds");
}

#[test]
fn dynamic_value_reads_and_writes_through() {
    let mut node = sample_map();
    {
        let mut value = Dynamic::new(JsonOps, &mut node);
        assert!(value.as_number().is_err());
        assert!(value.as_string().is_err());
        assert!(value.as_boolean().is_err());
        assert!(value.as_unit().is_err());
        assert!(value.as_list().is_err());
        value.as_map().unwrap().set("c", Json::Unit);
        assert_eq!(value.value(), &Json::Mapping(vec![
            ("a".to_string(), Json::Number(number(1.0))),
            ("b".to_string(), Json::String("two".to_string())),
            ("c".to_string(), Json::Unit),
        ]));
        value.mutate(|inner| *inner = Json::Boolean(true));
        assert_eq!(value.as_boolean(), Ok(true));
        *value.into_inner() = Json::Number(number(4.0));
    }
    assert_eq!(node, Json::Number(number(4.0)));
    let mut list = JsonOps.create_list(vec![]);
    let mut value = Dynamic::new(JsonOps, &mut list);
    value.as_list().unwrap().append(Json::Unit);
    assert_eq!(value.ops().shape(value.value()), Shape::List);
    assert_eq!(value.value(), &Json::List(vec![Json::Unit]));
    let mut text = JsonOps.create_string("t");
    assert_eq!(Dynamic::new(JsonOps, &mut text).as_string(), Ok("t".to_string()));
    let mut unit = JsonOps.create_unit();
    assert_eq!(Dynamic::new(JsonOps, &mut unit).as_unit(), Ok(()));
    let mut three = JsonOps.create_number(&number(3.0));
    assert_eq!(Dynamic::new(JsonOps, &mut three).as_number(), Ok(number(3.0)));
}
